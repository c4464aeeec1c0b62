use klia_store::session::{
    input_line, not_found_message, Poll, SessionError, SessionRegistry, CONFIRM_DELAY_MS,
    WATCH_INTERVAL_MS,
};

#[test]
fn new_registry_holds_no_session() {
    let r: SessionRegistry<u32> = SessionRegistry::new();
    assert!(!r.contains("org.app"));
    assert_eq!(r.session("org.app"), Err(SessionError::NotFound));
}

#[test]
fn inserted_session_is_found_under_its_key() {
    let mut r: SessionRegistry<u32> = SessionRegistry::new();
    assert_eq!(r.insert("org.app", 1), None);
    assert_eq!(r.insert("org.other", 2), None);
    assert!(r.contains("org.app"));
    assert_eq!(r.session("org.app"), Ok(&1));
    assert_eq!(r.session("org.other"), Ok(&2));
    assert!(!r.contains("org"));
}

#[test]
fn second_insert_hands_back_the_first_session() {
    let mut r: SessionRegistry<u32> = SessionRegistry::new();
    assert_eq!(r.insert("org.app", 1), None);
    assert_eq!(r.insert("org.other", 2), None);
    assert_eq!(r.insert("org.app", 3), Some(1));
    assert_eq!(r.session("org.app"), Ok(&3));
    assert_eq!(r.session("org.other"), Ok(&2));
    assert_eq!(r.remove("org.app"), Some(3));
    assert!(!r.contains("org.app"));
    assert_eq!(r.remove("org.app"), None);
}

#[test]
fn restart_takes_the_old_session_out_before_the_new_one_goes_in() {
    let mut r: SessionRegistry<u32> = SessionRegistry::new();
    r.insert("org.app", 1);
    let old = r.remove("org.app");
    assert_eq!(old, Some(1));
    assert!(!r.contains("org.app"));
    assert_eq!(r.insert("org.app", 2), None);
    assert_eq!(r.session("org.app"), Ok(&2));
}

#[test]
fn take_fails_with_not_found_for_a_key_without_session() {
    let mut r: SessionRegistry<u32> = SessionRegistry::new();
    assert_eq!(r.take("org.app"), Err(SessionError::NotFound));
    r.insert("org.app", 7);
    r.insert("org.b", 8);
    r.insert("org.c", 9);
    assert_eq!(r.take("org.b"), Ok(8));
    assert_eq!(r.take("org.b"), Err(SessionError::NotFound));
    assert_eq!(r.session("org.app"), Ok(&7));
    assert_eq!(r.session("org.c"), Ok(&9));
}

#[test]
fn running_session_stays_registered() {
    let mut r: SessionRegistry<u32> = SessionRegistry::new();
    r.insert("org.app", 1);
    let s = r.settle("org.app", Poll::Running);
    assert!(s.alive && !s.announce && s.evicted.is_none());
    assert!(r.contains("org.app"));
}

#[test]
fn exited_session_is_evicted_and_announced_once() {
    let mut r: SessionRegistry<u32> = SessionRegistry::new();
    r.insert("org.app", 1);
    let s = r.settle("org.app", Poll::Exited);
    assert!(!s.alive && s.announce);
    assert_eq!(s.evicted, Some(1));
    assert!(!r.contains("org.app"));
    let again = r.settle("org.app", Poll::Exited);
    assert!(!again.alive && !again.announce && again.evicted.is_none());
}

#[test]
fn unreadable_session_is_evicted_without_announcement() {
    let mut r: SessionRegistry<u32> = SessionRegistry::new();
    r.insert("org.app", 1);
    let s = r.settle("org.app", Poll::Failed);
    assert!(!s.alive && !s.announce);
    assert_eq!(s.evicted, Some(1));
    assert!(!r.contains("org.app"));
}

#[test]
fn absent_session_is_not_alive() {
    let mut r: SessionRegistry<u32> = SessionRegistry::new();
    let s = r.settle("org.app", Poll::Running);
    assert!(!s.alive && !s.announce && s.evicted.is_none());
}

#[test]
fn input_ends_with_a_line_feed() {
    assert_eq!(input_line("y"), "y\n");
    assert_eq!(input_line(""), "\n");
}

#[test]
fn message_for_a_missing_session_names_the_key() {
    assert_eq!(not_found_message("org.app"), "No process found for app_id: org.app");
}

#[test]
fn session_timers() {
    assert_eq!(CONFIRM_DELAY_MS, 1500);
    assert_eq!(WATCH_INTERVAL_MS, 500);
}

#[test]
fn start_terminates_the_old_session_before_the_new_one_is_registered() {
    let mut r: SessionRegistry<u32> = SessionRegistry::new();
    let mut terminated: Vec<u32> = Vec::new();
    r.start("org.app", 1, |old| terminated.push(old));
    assert!(terminated.is_empty());
    assert_eq!(r.session("org.app"), Ok(&1));
    r.insert("org.other", 5);
    r.start("org.app", 2, |old| terminated.push(old));
    assert_eq!(terminated, vec![1]);
    assert_eq!(r.session("org.app"), Ok(&2));
    assert_eq!(r.session("org.other"), Ok(&5));
}

#[test]
fn work_is_run_on_the_session_of_the_key_only() {
    let mut r: SessionRegistry<u32> = SessionRegistry::new();
    r.insert("org.app", 20);
    assert_eq!(r.with_session("org.app", |s| *s + 1), Ok(21));
    let mut ran = false;
    let missing = r.with_session("org.none", |_| {
        ran = true;
    });
    assert_eq!(missing, Err(SessionError::NotFound));
    assert!(!ran);
}
