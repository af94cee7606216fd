use speak_easy::scheduler::{RetentionScheduler, SchedulerAction, SchedulerEvent};
use speak_easy::speak_easy::SpeakEasy;
use speak_easy::{Rotation, SpeakConfig};

#[test]
fn default_config() {
    let c = SpeakConfig::default();
    assert_eq!(c.interval, Rotation::Never);
    assert_eq!(c.directory_path, "./logs");
    assert_eq!(c.prefix, "log");
    assert!(!c.cleanup);
    assert_eq!(c.cleanup_interval, 24 * 60 * 60);
    assert_eq!(c.keep_last, 5);
}

#[test]
fn new_config_has_cleanup_off() {
    let c = SpeakConfig::new(Rotation::Minutely, "./logs".to_string(), "my_log".to_string());
    assert_eq!(c.interval, Rotation::Minutely);
    assert_eq!(c.directory_path, "./logs");
    assert_eq!(c.prefix, "my_log");
    assert!(!c.cleanup);
    assert_eq!(c.cleanup_interval, 86400);
    assert_eq!(c.keep_last, 5);
}

#[test]
fn with_cleanup_sets_retention() {
    let c = SpeakConfig::new(Rotation::Hourly, "/tmp/l".to_string(), "p".to_string())
        .with_cleanup(60, 2);
    assert_eq!(c.interval, Rotation::Hourly);
    assert_eq!(c.directory_path, "/tmp/l");
    assert_eq!(c.prefix, "p");
    assert!(c.cleanup);
    assert_eq!(c.cleanup_interval, 60);
    assert_eq!(c.keep_last, 2);
}

#[test]
fn cleanup_task_only_when_enabled() {
    assert!(SpeakEasy::cleanup_task(&None).is_none());
    let off = SpeakConfig::new(Rotation::Daily, "d".to_string(), "p".to_string());
    assert!(SpeakEasy::cleanup_task(&Some(off.clone())).is_none());
    let t = SpeakEasy::cleanup_task(&Some(off.with_cleanup(30, 7))).unwrap();
    assert_eq!(t.directory_path, "d");
    assert_eq!(t.prefix, "p");
    assert_eq!(t.interval_secs, 30);
    assert_eq!(t.keep_last, 7);
}

#[test]
fn scheduler_keeps_running_after_failures() {
    let s = RetentionScheduler::new(86400);
    let mut event = SchedulerEvent::Started;
    let outcomes = [false, true, false, false, true];
    let mut passes = 0;
    let mut sleeps = 0;
    for round in 0..2 * outcomes.len() {
        let action = s.next_action(event);
        if round % 2 == 0 {
            assert_eq!(action, SchedulerAction::RunPass);
            event = SchedulerEvent::PassFinished { succeeded: outcomes[round / 2] };
            passes += 1;
        } else {
            assert_eq!(action, SchedulerAction::Sleep { seconds: 86400 });
            event = SchedulerEvent::Woke;
            sleeps += 1;
        }
    }
    assert_eq!(passes, outcomes.len());
    assert_eq!(sleeps, outcomes.len());
}

#[test]
fn scheduler_stops_only_when_asked() {
    let s = RetentionScheduler::new(5);
    assert_eq!(s.next_action(SchedulerEvent::StopRequested), SchedulerAction::Stop);
    assert_eq!(
        s.next_action(SchedulerEvent::PassFinished { succeeded: false }),
        SchedulerAction::Sleep { seconds: 5 }
    );
    assert_eq!(s.next_action(SchedulerEvent::Woke), SchedulerAction::RunPass);
}
