use bucket_control::events::{EventSource, Events};

#[test]
fn events_are_appended_in_order() {
    let mut log = Events::new();
    assert!(log.get_all().is_empty());
    log.record(5, EventSource::Filler, "filled".to_string());
    log.add(EventSource::Controller, "analyzed".to_string());
    log.add(EventSource::Actuator, "applied".to_string());
    let all = log.get_all();
    assert_eq!(all.len(), 3);
    assert_eq!(all[0].timestamp, 5);
    assert_eq!(all[0].source, EventSource::Filler);
    assert_eq!(all[1].source, EventSource::Controller);
    assert_eq!(all[1].message, "analyzed");
    assert_eq!(all[2].source, EventSource::Actuator);
    assert!(all[1].timestamp > 5);
    assert!(all[2].timestamp >= all[1].timestamp);
}

