//! One daemon per home.
use sigil::instance::{is_held, judge, judge_by, recorded_pid, LockAttempt, Taken, LOCK_FILE};

fn busy(recorded: Option<&str>) -> LockAttempt {
    LockAttempt::Refused {
        code: Some(libc::EWOULDBLOCK),
        error: "Resource temporarily unavailable".into(),
        recorded: recorded.map(|r| r.to_string()),
    }
}

#[test]
fn a_second_instance_is_refused_and_names_the_holder() {
    assert!(judge(LockAttempt::Held).is_ok());
    match judge(busy(Some("4242"))) {
        Err(Taken::Busy { pid }) => assert_eq!(pid, Some(4242)),
        _ => panic!("the lock is taken"),
    }
    match judge(busy(None)) {
        Err(Taken::Busy { pid }) => assert_eq!(pid, None),
        _ => panic!("the lock is taken"),
    }
}

#[test]
fn releasing_the_lock_lets_the_next_instance_take_it() {
    assert!(is_held(&judge(busy(Some("7")))));
    assert!(!is_held(&judge(LockAttempt::Held)));
}

#[test]
fn a_leftover_lock_file_from_a_dead_process_does_not_block_a_start() {
    assert_eq!(recorded_pid("999999999"), Some(999999999));
    assert!(judge(LockAttempt::Held).is_ok());
}

#[test]
fn the_recorded_pid_is_trimmed_and_must_parse() {
    assert_eq!(recorded_pid(" 12\n"), Some(12));
    assert_eq!(recorded_pid("+12"), Some(12));
    assert_eq!(recorded_pid("-3"), Some(-3));
    assert_eq!(recorded_pid("2147483647"), Some(i32::MAX));
    assert_eq!(recorded_pid("-2147483648"), Some(i32::MIN));
    assert_eq!(recorded_pid("2147483648"), None);
    assert_eq!(recorded_pid(""), None);
    assert_eq!(recorded_pid("12a"), None);
    assert_eq!(recorded_pid("1 2"), None);
    assert_eq!(LOCK_FILE, "daemon.lock");
}

#[test]
fn each_refusal_reads_as_what_it_is() {
    let text = |a| judge(a).err().unwrap().message();
    assert_eq!(text(busy(Some("9"))), "another sigil daemon is already running (pid 9)");
    assert_eq!(text(busy(Some("x"))), "another sigil daemon is already running");
    let denied = || LockAttempt::Refused {
        code: Some(libc::EACCES),
        error: "denied".into(),
        recorded: Some("9".into()),
    };
    assert_eq!(text(denied()), "cannot take the single-instance lock: denied");
    assert!(!is_held(&judge(denied())));
    let odd = LockAttempt::Refused { code: None, error: "odd".into(), recorded: None };
    assert_eq!(judge(odd), Err(Taken::Io("odd".into())));
    assert_eq!(judge(LockAttempt::Failed("ro".into())), Err(Taken::Io("ro".into())));
    assert_eq!(judge_by(denied(), libc::EACCES), Err(Taken::Busy { pid: Some(9) }));
}
