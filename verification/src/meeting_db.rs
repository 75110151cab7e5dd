//! The decisions of the meeting store: a change that names the revision it
//! was made against is applied only to that revision.

use vstd::prelude::*;

use crate::structs::{Meeting, MeetingError, Slot, User, UserView, Vote};

verus! {

/// Why a change to a stored meeting was refused.
pub enum UpdateError {
    /// The meeting has changed since the revision that the change names.
    WrongRevision,
    /// The meeting refused the change.
    Meeting(MeetingError),
}

/// Adds the user to the meeting, provided the meeting is still at
/// `revision`; else the meeting is left as it is.
pub fn add_user_at_revision(meeting: &mut Meeting, revision: u128, user: User) -> (r: Result<
    (),
    UpdateError,
>)
    requires
        old(meeting).wf(),
    ensures
        final(meeting).wf(),
        old(meeting)@.revision != revision ==> (r matches Err(UpdateError::WrongRevision))
            && final(meeting)@ == old(meeting)@,
        old(meeting)@.revision == revision && old(meeting)@.has_conflict(user@) ==> (r matches Err(
            UpdateError::Meeting(MeetingError::ConflictingUser),
        )) && final(meeting)@ == old(meeting)@,
        r is Ok <==> old(meeting)@.revision == revision && !old(meeting)@.has_conflict(user@),
        r is Ok ==> final(meeting)@.revision != revision,
        r is Ok ==> final(meeting)@ == old(meeting)@.with_users(
            old(meeting)@.users.insert(user@),
            final(meeting)@.revision,
        ),
{
    if meeting.get_revision() != revision {
        return Err(UpdateError::WrongRevision);
    }
    match meeting.add_user(user) {
        Ok(()) => Ok(()),
        Err(e) => Err(UpdateError::Meeting(e)),
    }
}

/// Adds the slot to the meeting, provided the meeting is still at
/// `revision`; else the meeting is left as it is.
pub fn add_slot_at_revision(meeting: &mut Meeting, revision: u128, slot: Slot) -> (r: Result<
    (),
    UpdateError,
>)
    requires
        old(meeting).wf(),
    ensures
        final(meeting).wf(),
        old(meeting)@.revision != revision ==> (r matches Err(UpdateError::WrongRevision))
            && final(meeting)@ == old(meeting)@,
        r is Ok <==> old(meeting)@.revision == revision,
        r is Ok ==> final(meeting)@.revision != revision,
        r is Ok ==> final(meeting)@ == old(meeting)@.with_slots(
            old(meeting)@.slots.insert(slot),
            final(meeting)@.revision,
        ),
{
    if meeting.get_revision() != revision {
        return Err(UpdateError::WrongRevision);
    }
    meeting.add_slot(slot);
    Ok(())
}

/// Records a vote given by email address: the vote of the meeting's user with
/// that address for the slot. Refused, leaving the meeting as it is, where no
/// user has the address or the slot is not one of the meeting's.
pub fn add_vote_unsafe(meeting: &mut Meeting, vote: Vote) -> (r: Result<(), MeetingError>)
    requires
        old(meeting).wf(),
    ensures
        final(meeting).wf(),
        r is Ok <==> (exists|u: UserView| #[trigger] old(meeting)@.users.contains(u) && u.email == vote@.user_email)
            && old(meeting)@.slots.contains(vote.slot),
        r is Err ==> final(meeting)@ == old(meeting)@,
        r is Ok ==> final(meeting)@.revision != old(meeting)@.revision,
        r is Ok ==> final(meeting)@ == old(meeting)@.with_votes(
            old(meeting)@.votes.insert(vote@),
            final(meeting)@.revision,
        ),
{
    match meeting.user_by_email(vote.user_email.as_str()) {
        Some(user) => meeting.add_vote(user, vote.slot),
        None => Err(MeetingError::UnknownUser),
    }
}

} // verus!
