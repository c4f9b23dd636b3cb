use musicdb::notif::{NotifInfo, NotifPhase, Notifications, FADE_NANOS, LIGHT_NANOS};

const MS: u64 = 1_000_000;

#[test]
fn a_notification_lives_and_goes() {
    let mut n: Notifications<u8> = Notifications::new();
    n.push(NotifInfo::new(1000 * MS));
    let (adjust, gone) = n.check(10 * MS);
    assert!(adjust && gone.is_empty());
    assert_eq!(n.notifs[0].phase, NotifPhase::FadingIn(10 * MS));
    assert_eq!(n.check(100 * MS), (true, vec![]));
    assert_eq!(n.notifs[0].phase, NotifPhase::FadingIn(10 * MS));
    n.check(10 * MS + FADE_NANOS);
    assert_eq!(n.notifs[0].phase, NotifPhase::Displayed(10 * MS + FADE_NANOS));
    assert_eq!(n.check(500 * MS), (false, vec![]));
    n.check(10 * MS + FADE_NANOS + 1000 * MS);
    assert!(matches!(n.notifs[0].phase, NotifPhase::FadingOut(_)));
    let (adjust, gone) = n.check(10 * MS + FADE_NANOS + 1000 * MS + FADE_NANOS);
    assert!(adjust);
    assert_eq!(gone, vec![0]);
    assert!(n.notifs.is_empty());
}

#[test]
fn a_highlight_holds_back_the_next() {
    let mut n: Notifications<u8> = Notifications::new();
    n.push(NotifInfo::new(1000 * MS).with_highlight(7));
    n.push(NotifInfo::new(1000 * MS));
    n.check(0 + 1);
    assert_eq!(n.light, Some((1, 7)));
    assert_eq!(n.notifs[0].phase, NotifPhase::FadingIn(1));
    assert_eq!(n.notifs[1].phase, NotifPhase::Pending);
    n.light_check(100 * MS);
    assert!(n.light.is_some());
    n.light_check(1 + LIGHT_NANOS);
    assert!(n.light.is_none());
    n.check(2 + LIGHT_NANOS);
    assert_eq!(n.notifs[1].phase, NotifPhase::FadingIn(2 + LIGHT_NANOS));
}

#[test]
fn plain_notifications_appear_together() {
    let mut n: Notifications<u8> = Notifications::new();
    n.push(NotifInfo::new(5 * MS));
    n.push(NotifInfo::new(5 * MS));
    n.check(3);
    assert_eq!(n.notifs[0].phase, NotifPhase::FadingIn(3));
    assert_eq!(n.notifs[1].phase, NotifPhase::FadingIn(3));
    assert!(n.light.is_none());
}

#[test]
fn a_zero_duration_waits_for_time_to_pass() {
    let mut n: Notifications<u8> = Notifications::new();
    let mut info = NotifInfo::new(0);
    info.phase = NotifPhase::Displayed(50);
    n.push(info);
    n.check(50);
    assert_eq!(n.notifs[0].phase, NotifPhase::Displayed(50));
    n.check(51);
    assert_eq!(n.notifs[0].phase, NotifPhase::FadingOut(51));
}
