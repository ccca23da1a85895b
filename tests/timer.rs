use ledcore::timer::{EspTimer, TimerError, TimerPoll};

#[test]
fn wait_twice_on_one_timer() {
    let mut t = EspTimer::new();
    for _ in 0..2 {
        assert!(t.is_idle());
        assert_eq!(t.after(16000), Ok(()));
        assert_eq!(t.poll(), TimerPoll::Arm(16000));
        assert_eq!(t.poll(), TimerPoll::Pending);
        assert!(t.alarm_fired());
        assert!(!t.alarm_fired());
        assert_eq!(t.poll(), TimerPoll::Ready);
        assert!(t.is_idle());
    }
}

#[test]
fn second_wait_while_busy_fails() {
    let mut t = EspTimer::new();
    assert_eq!(t.after(5), Ok(()));
    assert_eq!(t.after(6), Err(TimerError::Busy));
    assert_eq!(t.poll(), TimerPoll::Arm(5));
    assert_eq!(t.after(6), Err(TimerError::Busy));
}

#[test]
fn alarm_before_arming_is_ignored() {
    let mut t = EspTimer::new();
    assert!(!t.alarm_fired());
    assert_eq!(t.after(100), Ok(()));
    assert!(!t.alarm_fired());
    assert_eq!(t.poll(), TimerPoll::Arm(100));
    assert_eq!(t.poll(), TimerPoll::Pending);
    assert!(t.alarm_fired());
    assert_eq!(t.poll(), TimerPoll::Ready);
}
