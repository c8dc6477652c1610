use tasmota_mqtt_client::topic::{device_of_topic, device_topic, ip_reply_token, str_eq};

#[test]
fn device_is_the_second_path_segment() {
    assert_eq!(device_of_topic("tele/dev1/LWT"), Some("dev1".to_string()));
    assert_eq!(device_of_topic("stat/kitchen/RESULT"), Some("kitchen".to_string()));
    assert_eq!(device_of_topic("tele/dev1"), Some("dev1".to_string()));
    assert_eq!(device_of_topic("nodevicehere"), None);
    assert_eq!(device_of_topic(""), None);
    assert_eq!(device_of_topic("a//b"), Some(String::new()));
    assert_eq!(device_of_topic("/x/y"), Some("x".to_string()));
}

#[test]
fn ip_reply_token_is_the_last_token_without_parentheses() {
    assert_eq!(ip_reply_token("tasmota-1234 (192.168.1.10)"), "192.168.1.10");
    assert_eq!(ip_reply_token("192.168.1.10"), "192.168.1.10");
    assert_eq!(ip_reply_token(""), "");
    assert_eq!(ip_reply_token("a b c"), "c");
}

#[test]
fn topics_join_their_parts() {
    assert_eq!(device_topic("tele/", "dev1", "/LWT"), "tele/dev1/LWT");
    assert_eq!(device_topic("cmnd/", "dev1", "/Power"), "cmnd/dev1/Power");
}

#[test]
fn string_equality_by_characters() {
    assert!(str_eq("Online", "Online"));
    assert!(!str_eq("Online", "Offline"));
    assert!(!str_eq("Online", "Onlin"));
}
