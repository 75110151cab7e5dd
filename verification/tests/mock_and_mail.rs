use meetinizer::mail::login_mail;
use meetinizer::mock::{get_meeting_mock, mock_meeting_at};
use meetinizer::structs::Timestamp;
use meetinizer::structs::{User, Vote};

#[test]
fn mock_meeting_has_one_user_slot_and_vote() {
    let m = match get_meeting_mock("team") {
        Some(m) => m,
        None => return,
    };
    assert_eq!(m.get_name(), "Hello team");
    assert_eq!(m.users(), &vec![User::new("Kenneth Hedman", "test@vitberget.se")]);
    assert_eq!(m.slots().len(), 1);
    let slot = m.slots()[0];
    assert_eq!(slot.start, slot.end);
    assert_eq!(m.votes(), &vec![Vote { user_email: "test@vitberget.se".to_string(), slot }]);
    let expected = chrono::NaiveDate::from_ymd_opt(2025, 6, 4)
        .unwrap()
        .and_hms_opt(15, 0, 0)
        .unwrap()
        .and_local_timezone(chrono::Local)
        .earliest()
        .unwrap();
    assert_eq!(slot.start.secs, expected.timestamp());
    assert_eq!(slot.start.nanos, 0);
    assert!((slot.start.secs - 1749049200).abs() < 86400);
}

#[test]
fn login_mail_names_the_meeting_and_the_link() {
    let mail = login_mail("example", "https://vitberget.se/whatever");
    assert_eq!(mail.subject, "Login to example");
    assert_eq!(
        mail.html_body,
        "<h1>Login to example</h1><p>Please use this link <a href=\"https://vitberget.se/whatever\">https://vitberget.se/whatever</a> to log in and vote.<p>Best regards / the Meetinizer Robot"
    );
    assert_eq!(
        mail.text_body,
        "Login to {meeting}\n\nPlease use this link {login_url} to log in and vote.\n\nBest regards / the Meetinizer Robot"
    );
}

#[test]
fn mock_meeting_at_a_given_moment() {
    let at = Timestamp { secs: 1749042000, nanos: 0 };
    let m = mock_meeting_at("x", at);
    assert_eq!(m.get_name(), "Hello x");
    assert_eq!(m.get_comment(), "");
    assert_eq!(m.slots()[0].start, at);
    assert_eq!(m.slots()[0].end, at);
    assert_eq!(m.votes().len(), 1);
    assert_eq!(m.users().len(), 1);
}
