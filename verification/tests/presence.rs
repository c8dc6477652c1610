use tasmota_mqtt_client::mux::Message;
use tasmota_mqtt_client::presence::PresenceTracker;
use tasmota_mqtt_client::DeviceUpdate;

fn msg(topic: &str, payload: &str) -> Message {
    Message {
        topic: topic.to_string(),
        payload: payload.as_bytes().to_vec(),
    }
}

#[test]
fn replay_keeps_devices_whose_last_announcement_was_online() {
    let mut tracker = PresenceTracker::new();
    let msgs = vec![
        msg("tele/dev1/LWT", "Online"),
        msg("tele/dev2/LWT", "Online"),
        msg("tele/dev1/LWT", "Offline"),
        msg("tele/dev3/LWT", "Online"),
        msg("tele/dev2/LWT", "Busy"),
        msg("tele/dev3/LWT", "Online"),
    ];
    tracker.process_all(&msgs);
    let devices = tracker.current_devices();
    assert_eq!(devices, vec!["dev2".to_string(), "dev3".to_string()]);
}

#[test]
fn late_subscriber_snapshot_is_exactly_the_known_set_as_added() {
    let mut tracker = PresenceTracker::new();
    for d in ["a", "b", "c"] {
        let topic = format!("tele/{d}/LWT");
        tracker.process_announcement(&topic, b"Online");
    }
    let snapshot = tracker.snapshot_updates();
    assert_eq!(snapshot.len(), 3);
    for (update, expected) in snapshot.iter().zip(["a", "b", "c"]) {
        match update {
            DeviceUpdate::Added(d) => assert_eq!(d, expected),
            DeviceUpdate::Removed(_) => panic!("snapshot must hold no Removed update"),
        }
    }
}

#[test]
fn no_duplicate_added_and_no_ghost_removed() {
    let mut tracker = PresenceTracker::new();
    let first = tracker.process_announcement("tele/dev1/LWT", b"Online");
    assert!(matches!(first, Some(DeviceUpdate::Added(d)) if d == "dev1"));
    let again = tracker.process_announcement("tele/dev1/LWT", b"Online");
    assert!(again.is_none());
    let gone = tracker.process_announcement("tele/dev1/LWT", b"Offline");
    assert!(matches!(gone, Some(DeviceUpdate::Removed(d)) if d == "dev1"));
    let ghost = tracker.process_announcement("tele/dev1/LWT", b"Offline");
    assert!(ghost.is_none());
    let unknown = tracker.process_announcement("tele/dev2/LWT", b"Offline");
    assert!(unknown.is_none());
    assert!(tracker.current_devices().is_empty());
}

#[test]
fn other_payloads_and_malformed_topics_are_ignored() {
    let mut tracker = PresenceTracker::new();
    assert!(tracker.process_announcement("nodevicehere", b"Online").is_none());
    assert!(tracker.process_announcement("tele/dev1/LWT", b"online").is_none());
    assert!(tracker.process_announcement("tele/dev1/LWT", b"").is_none());
    assert!(tracker.current_devices().is_empty());
}

#[test]
fn known_devices_are_enumerated_in_ascending_order() {
    let mut tracker = PresenceTracker::new();
    for d in ["kitchen", "attic", "cellar", "bedroom"] {
        let topic = format!("tele/{d}/LWT");
        tracker.process_announcement(&topic, b"Online");
    }
    assert_eq!(
        tracker.current_devices(),
        vec![
            "attic".to_string(),
            "bedroom".to_string(),
            "cellar".to_string(),
            "kitchen".to_string(),
        ]
    );
    let snapshot = tracker.snapshot_updates();
    let names: Vec<String> = snapshot
        .into_iter()
        .map(|u| match u {
            DeviceUpdate::Added(d) => d,
            DeviceUpdate::Removed(_) => panic!("snapshot must hold no Removed update"),
        })
        .collect();
    assert_eq!(names, tracker.current_devices());
}

#[test]
fn snapshot_of_empty_tracker_is_empty() {
    let tracker = PresenceTracker::new();
    assert!(tracker.snapshot_updates().is_empty());
    assert!(tracker.current_devices().is_empty());
}
