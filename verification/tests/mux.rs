use tasmota_mqtt_client::mux::{plan_dispatch, Subscription};

fn sub(filter: &str, active: bool) -> Subscription {
    Subscription {
        filter: filter.to_string(),
        active,
    }
}

#[test]
fn message_fans_out_to_every_matching_active_subscription() {
    let subs = vec![
        sub("stat/+/FILEDOWNLOAD", true),
        sub("stat/dev1/#", true),
        sub("tele/+/LWT", true),
        sub("stat/dev2/FILEDOWNLOAD", true),
    ];
    let plan = plan_dispatch(&subs, "stat/dev1/FILEDOWNLOAD");
    assert_eq!(plan.deliver, vec![0, 1]);
    assert_eq!(plan.keep, vec![0, 1, 2, 3]);
}

#[test]
fn dropped_subscription_receives_nothing_and_is_pruned() {
    let subs = vec![
        sub("stat/+/FILEDOWNLOAD", false),
        sub("stat/dev1/#", true),
    ];
    let plan = plan_dispatch(&subs, "stat/dev1/FILEDOWNLOAD");
    assert_eq!(plan.deliver, vec![1]);
    assert_eq!(plan.keep, vec![1]);
}

#[test]
fn exact_filters_and_multi_level_wildcards() {
    let subs = vec![
        sub("tele/dev1/LWT", true),
        sub("tele/#", true),
        sub("#", true),
        sub("tele/dev1/STATE", true),
    ];
    let plan = plan_dispatch(&subs, "tele/dev1/LWT");
    assert_eq!(plan.deliver, vec![0, 1, 2]);
}

#[test]
fn no_subscription_no_delivery() {
    let subs: Vec<Subscription> = Vec::new();
    let plan = plan_dispatch(&subs, "stat/dev1/FILEDOWNLOAD");
    assert!(plan.deliver.is_empty());
    assert!(plan.keep.is_empty());
}
