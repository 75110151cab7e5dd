use chrono::{Datelike, FixedOffset, TimeZone, Timelike};
use meetinizer::meeting_db::{add_slot_at_revision, add_user_at_revision, UpdateError};
use meetinizer::structs::{Meeting, MeetingError, Slot, SlotParseError, Timestamp, User, Vote};

fn slot(start: i64, end: i64) -> Slot {
    Slot { start: Timestamp { secs: start, nanos: 0 }, end: Timestamp { secs: end, nanos: 0 } }
}

#[test]
fn user_new_keeps_name_and_email() {
    let u = User::new("Kenneth Hedman", "test@vitberget.se");
    assert_eq!(u.name, "Kenneth Hedman");
    assert_eq!(u.email, "test@vitberget.se");
}

#[test]
fn new_meeting_is_empty() {
    let m = Meeting::new("alive");
    assert_eq!(m.get_name(), "alive");
    assert_eq!(m.get_comment(), "");
    assert!(m.slots().is_empty());
    assert!(m.users().is_empty());
    assert!(m.votes().is_empty());
    assert_ne!(m.get_id(), m.get_revision());
}

#[test]
fn set_comment_and_name_change_revision() {
    let mut m = Meeting::new("alive");
    let r0 = m.get_revision();
    m.set_comment("Some rando comment");
    assert_eq!(m.get_comment(), "Some rando comment");
    let r1 = m.get_revision();
    assert_ne!(r0, r1);
    m.set_name("renamed".to_string());
    assert_eq!(m.get_name(), "renamed");
    assert_ne!(r1, m.get_revision());
}

#[test]
fn add_user_refuses_shared_name_or_email() {
    let mut m = Meeting::new("m");
    assert!(m.add_user(User::new("Ann", "ann@example.com")).is_ok());
    let rev = m.get_revision();
    assert_eq!(m.add_user(User::new("Ann", "other@example.com")), Err(MeetingError::ConflictingUser));
    assert_eq!(m.add_user(User::new("Bob", "ann@example.com")), Err(MeetingError::ConflictingUser));
    assert_eq!(m.get_revision(), rev);
    assert_eq!(m.users().len(), 1);
    assert!(m.add_user(User::new("Bob", "bob@example.com")).is_ok());
    assert_eq!(m.users().len(), 2);
    assert_ne!(m.get_revision(), rev);
}

#[test]
fn add_slot_is_a_set_insert() {
    let mut m = Meeting::new("m");
    m.add_slot(slot(10, 20));
    m.add_slot(slot(10, 20));
    m.add_slot(slot(30, 40));
    assert_eq!(m.slots().len(), 2);
    assert!(m.slots().contains(&slot(10, 20)));
    assert!(m.slots().contains(&slot(30, 40)));
}

#[test]
fn add_vote_needs_known_user_and_slot() {
    let mut m = Meeting::new("m");
    let ann = User::new("Ann", "ann@example.com");
    assert_eq!(m.add_vote(ann.clone(), slot(1, 2)), Err(MeetingError::UnknownUser));
    m.add_user(ann.clone()).unwrap();
    assert_eq!(m.add_vote(ann.clone(), slot(1, 2)), Err(MeetingError::UnknownSlot));
    m.add_slot(slot(1, 2));
    assert_eq!(m.add_vote(User::new("Ann", "other@example.com"), slot(1, 2)), Err(MeetingError::UnknownUser));
    assert_eq!(m.add_vote(ann.clone(), slot(1, 2)), Ok(()));
    assert_eq!(m.add_vote(ann, slot(1, 2)), Ok(()));
    assert_eq!(m.votes().len(), 1);
    assert_eq!(m.votes()[0], Vote { user_email: "ann@example.com".to_string(), slot: slot(1, 2) });
}

#[test]
fn remove_user_refused_while_user_has_votes() {
    let mut m = Meeting::new("m");
    let ann = User::new("Ann", "ann@example.com");
    m.add_user(ann.clone()).unwrap();
    m.add_slot(slot(1, 2));
    m.add_vote(ann.clone(), slot(1, 2)).unwrap();
    let rev = m.get_revision();
    assert_eq!(m.remove_user(ann.clone()), Err(MeetingError::UserHasVotes));
    assert_eq!(m.get_revision(), rev);
    m.remove_vote(&Vote { user_email: "ann@example.com".to_string(), slot: slot(1, 2) });
    assert!(m.votes().is_empty());
    assert_eq!(m.remove_user(ann), Ok(()));
    assert!(m.users().is_empty());
}

#[test]
fn remove_slot_refused_while_slot_has_votes() {
    let mut m = Meeting::new("m");
    let ann = User::new("Ann", "ann@example.com");
    m.add_user(ann.clone()).unwrap();
    m.add_slot(slot(1, 2));
    m.add_slot(slot(3, 4));
    m.add_vote(ann, slot(1, 2)).unwrap();
    assert_eq!(m.remove_slot(slot(1, 2)), Err(MeetingError::SlotHasVotes));
    assert_eq!(m.remove_slot(slot(3, 4)), Ok(()));
    assert_eq!(m.slots(), &vec![slot(1, 2)]);
}

#[test]
fn remove_slot_unsafe_leaves_votes() {
    let mut m = Meeting::new("m");
    let ann = User::new("Ann", "ann@example.com");
    m.add_user(ann.clone()).unwrap();
    m.add_slot(slot(1, 2));
    m.add_vote(ann, slot(1, 2)).unwrap();
    m.remove_slot_unsafe(slot(1, 2));
    assert!(m.slots().is_empty());
    assert_eq!(m.votes().len(), 1);
}

#[test]
fn from_parts_counts_repeats_once() {
    let ann = User::new("Ann", "ann@example.com");
    let m = Meeting::from_parts(
        7,
        8,
        "n".to_string(),
        "c".to_string(),
        vec![slot(1, 2), slot(1, 2)],
        vec![ann.clone(), ann],
        vec![],
    );
    assert_eq!(m.get_id(), 7);
    assert_eq!(m.get_revision(), 8);
    assert_eq!(m.slots().len(), 1);
    assert_eq!(m.users().len(), 1);
}

#[test]
fn updates_at_revision_check_the_revision() {
    let mut m = Meeting::new("m");
    let rev = m.get_revision();
    let wrong = rev.wrapping_add(1);
    assert!(matches!(add_user_at_revision(&mut m, wrong, User::new("Ann", "a@x")), Err(UpdateError::WrongRevision)));
    assert!(m.users().is_empty());
    assert!(add_user_at_revision(&mut m, rev, User::new("Ann", "a@x")).is_ok());
    let rev2 = m.get_revision();
    assert!(matches!(
        add_user_at_revision(&mut m, rev2, User::new("Ann", "b@x")),
        Err(UpdateError::Meeting(MeetingError::ConflictingUser))
    ));
    assert!(matches!(add_slot_at_revision(&mut m, rev, slot(1, 2)), Err(UpdateError::WrongRevision)));
    assert!(add_slot_at_revision(&mut m, rev2, slot(1, 2)).is_ok());
    assert_eq!(m.slots().len(), 1);
}

#[test]
fn timestamps_order_by_seconds_then_nanos() {
    let a = Timestamp { secs: 5, nanos: 10 };
    assert!(a.is_before(&Timestamp { secs: 6, nanos: 0 }));
    assert!(a.is_before(&Timestamp { secs: 5, nanos: 11 }));
    assert!(!a.is_before(&a));
    assert!(!a.is_before(&Timestamp { secs: 4, nanos: 999 }));
}

#[test]
fn test_parse_datetime() {
    let text = "\"2025-06-04T15:00:00+02:00\"";
    let slot = match Slot::from_str(text, text) {
        Ok(s) => s,
        Err(_) => panic!("the date should parse"),
    };
    let zone = FixedOffset::east_opt(2 * 3600).unwrap();
    let dt = zone.timestamp_opt(slot.start.secs, slot.start.nanos).unwrap();
    assert_eq!(dt.year(), 2025);
    assert_eq!(dt.month(), 6);
    assert_eq!(dt.day(), 4);
    assert_eq!(dt.hour(), 15);
}

#[test]
fn slot_from_str_adds_missing_quotes() {
    let s = match Slot::from_str("2025-06-04T15:00:00+02:00", "2025-06-04T22:00:00Z") {
        Ok(s) => s,
        Err(_) => panic!("both should parse"),
    };
    assert_eq!(s.start, Timestamp { secs: 1749042000, nanos: 0 });
    assert_eq!(s.end, Timestamp { secs: 1749074400, nanos: 0 });
    let quoted = match Slot::from_str("\"2025-06-04T15:00:00+02:00\"", "\"2025-06-04T22:00:00Z\"") {
        Ok(s) => s,
        Err(_) => panic!("both should parse"),
    };
    assert_eq!(s, quoted);
}

#[test]
fn slot_from_str_reports_which_end_is_wrong() {
    assert!(matches!(Slot::from_str("yesterday", "2025-06-04T22:00:00Z"), Err(SlotParseError::Start(_))));
    assert!(matches!(Slot::from_str("2025-06-04T22:00:00Z", "tomorrow"), Err(SlotParseError::End(_))));
    assert!(matches!(Slot::from_str("", ""), Err(SlotParseError::Start(_))));
}
