//! A sample meeting, served while the real meeting pages are being built.

use vstd::prelude::*;
use vstd::string::StringExecFns;

use crate::structs::{Meeting, MeetingView, Slot, Timestamp, User, UserView, VoteView};

verus! {

/// The seconds since the Unix epoch at the given date (proleptic Gregorian
/// calendar) and time of day, read as UTC: what
/// `chrono::NaiveDate::from_ymd_opt(..).and_hms_opt(..).and_utc().timestamp()`
/// gives for a date and time that exist.
pub open spec fn civil_seconds(year: int, month: int, day: int, hour: int, min: int, sec: int) -> int {
    let y = if month <= 2 { year - 1 } else { year };
    let era = y / 400;
    let year_of_era = y - era * 400;
    let shifted_month = if month > 2 { month - 3 } else { month + 9 };
    let day_of_year = (153 * shifted_month + 2) / 5 + day - 1;
    let day_of_era = year_of_era * 365 + year_of_era / 4 - year_of_era / 100 + day_of_year;
    let days = era * 146097 + day_of_era - 719468;
    days * 86400 + hour * 3600 + min * 60 + sec
}

/// The moment that the given local date and time of day names, from
/// `chrono::NaiveDate::from_ymd_opt(..).and_hms_opt(..)`,
/// `and_local_timezone(chrono::Local)` and `earliest()`: `None` where the
/// date or time does not exist, or the local time does not exist on this
/// machine. The contract claims that a moment found lies less than a day
/// from the same date and time read as UTC, in whole seconds: the local
/// offset is a `FixedOffset`, which is less than a day either way. Which
/// moment it is depends on the machine's time zone, and is not stated.
#[verifier::external_body]
fn local_date_time(year: i32, month: u32, day: u32, hour: u32, min: u32, sec: u32) -> (r: Option<
    Timestamp,
>)
    ensures
        r matches Some(t) ==> t.nanos == 0 && civil_seconds(year as int, month as int, day as int, hour as int, min as int, sec as int) - 86400 < t.secs,
        r matches Some(t) ==> t.secs < civil_seconds(year as int, month as int, day as int, hour as int, min as int, sec as int) + 86400,
{
    let naive = chrono::NaiveDate::from_ymd_opt(year, month, day)?.and_hms_opt(hour, min, sec)?;
    let dt = naive.and_local_timezone(chrono::Local).earliest()?;
    Some(Timestamp { secs: dt.timestamp(), nanos: dt.timestamp_subsec_nanos() })
}

/// The sample user.
pub open spec fn mock_user() -> UserView {
    UserView { name: "Kenneth Hedman"@, email: "test@vitberget.se"@ }
}

/// The sample meeting for `id`: named `Hello ` and the id, with one user, one
/// slot that starts and ends at 15:00 local time on 4 June 2025, and that
/// user's vote for that slot. `None` where that local time does not exist on
/// this machine (see `mock_meeting_at`). The slot's moment lies less than a
/// day from 15:00 UTC that day, in whole seconds.
pub fn get_meeting_mock(id: &str) -> (r: Option<Meeting>)
    ensures
        r matches Some(m) ==> m.wf(),
        r matches Some(m) ==> exists|at: Timestamp|
            #[trigger] mock_meeting(m@, id@, at) && at.nanos == 0 && civil_seconds(2025, 6, 4, 15, 0, 0)
                - 86400 < at.secs < civil_seconds(2025, 6, 4, 15, 0, 0) + 86400,
{
    match local_date_time(2025, 6, 4, 15, 0, 0) {
        Some(at) => {
            let m = mock_meeting_at(id, at);
            let r = Some(m);
            proof {
                assert(mock_meeting(r->0@, id@, at));
            }
            r
        },
        None => None,
    }
}

/// `m` is the sample meeting for `id` with its slot at `at`.
pub open spec fn mock_meeting(m: MeetingView, id: Seq<char>, at: Timestamp) -> bool {
    let slot = Slot { start: at, end: at };
    &&& m.name == "Hello "@ + id
    &&& m.comment == Seq::<char>::empty()
    &&& m.users == Set::<UserView>::empty().insert(mock_user())
    &&& m.slots == Set::<Slot>::empty().insert(slot)
    &&& m.votes == Set::<VoteView>::empty().insert(VoteView { user_email: mock_user().email, slot: slot })
}

/// The sample meeting for `id`, with its slot starting and ending at `at`:
/// the sample user is added, then the slot, then the user's vote for it.
pub fn mock_meeting_at(id: &str, at: Timestamp) -> (r: Meeting)
    ensures
        r.wf(),
        mock_meeting(r@, id@, at),
{
    let mut name = String::from_str("Hello ");
    name.append(id);
    let mut meeting = Meeting::new(name.as_str());
    let user = User::new("Kenneth Hedman", "test@vitberget.se");
    proof {
        assert(!meeting@.has_conflict(user@));
    }
    let added = meeting.add_user(user);
    let slot = Slot { start: at, end: at };
    meeting.add_slot(slot);
    let voter = User::new("Kenneth Hedman", "test@vitberget.se");
    proof {
        assert(meeting@.users.contains(voter@));
        assert(meeting@.slots.contains(slot));
    }
    let voted = meeting.add_vote(voter, slot);
    proof {
        assert(added is Ok && voted is Ok);
        assert(meeting@.users =~= Set::<UserView>::empty().insert(mock_user()));
        assert(meeting@.slots =~= Set::<Slot>::empty().insert(slot));
        assert(meeting@.votes =~= Set::<VoteView>::empty().insert(
            VoteView { user_email: mock_user().email, slot: slot },
        ));
        assert(meeting@.name =~= "Hello "@ + id@);
    }
    meeting
}

} // verus!
