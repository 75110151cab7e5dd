//! The meeting data: participants, proposed time slots and votes.
//!
//! A meeting holds three sets: the users that registered, the slots that were
//! proposed and the votes that users cast for slots. The sets are stored as
//! vectors without duplicates; their views are sets.

use vstd::prelude::*;
use vstd::string::StringExecFns;

use crate::seq_facts::{lemma_push_fresh, lemma_push_to_set, lemma_remove_unique};

verus! {

/// A moment in time: whole seconds since the Unix epoch and the nanoseconds
/// within that second.
#[derive(Clone, Copy, Debug, PartialEq, Eq, Hash, Structural)]
pub struct Timestamp {
    pub secs: i64,
    pub nanos: u32,
}

impl Timestamp {
    /// `self` lies strictly before `other`.
    pub open spec fn precedes(self, other: Timestamp) -> bool {
        self.secs < other.secs || (self.secs == other.secs && self.nanos < other.nanos)
    }

    /// Whether `self` lies strictly before `other`.
    pub fn is_before(&self, other: &Timestamp) -> (r: bool)
        ensures
            r == self.precedes(*other),
    {
        self.secs < other.secs || (self.secs == other.secs && self.nanos < other.nanos)
    }
}

/// A proposed time slot of a meeting.
#[derive(Clone, Copy, Debug, PartialEq, Eq, Hash, Structural)]
pub struct Slot {
    pub start: Timestamp,
    pub end: Timestamp,
}

/// The error of `serde_json`, carried through unopened.
#[verifier::external_type_specification]
#[verifier::external_body]
pub struct ExJsonError(serde_json::Error);

/// The instant that `serde_json::from_str::<chrono::DateTime<chrono::Local>>`
/// reads from `text` (a JSON string holding an RFC 3339 date and time), or
/// `None` where it refuses the text.
pub uninterp spec fn json_datetime(text: Seq<char>) -> Option<Timestamp>;

/// Parses `text` with `serde_json::from_str::<chrono::DateTime<chrono::Local>>`
/// and gives the instant as seconds and nanoseconds since the Unix epoch
/// (`timestamp` and `timestamp_subsec_nanos` of the parsed value). The
/// contract claims that the outcome depends on the text alone, under the name
/// `json_datetime`; the time zone of the machine changes how the parsed value
/// is displayed, not the instant.
#[verifier::external_body]
fn parse_json_datetime(text: &str) -> (r: Result<Timestamp, serde_json::Error>)
    ensures
        match r {
            Ok(t) => json_datetime(text@) == Some(t),
            Err(_) => json_datetime(text@) is None,
        },
{
    match serde_json::from_str::<chrono::DateTime<chrono::Local>>(text) {
        Ok(dt) => Ok(Timestamp { secs: dt.timestamp(), nanos: dt.timestamp_subsec_nanos() }),
        Err(e) => Err(e),
    }
}

/// Why a slot could not be read.
pub enum SlotParseError {
    /// The start is no date and time.
    Start(serde_json::Error),
    /// The end is no date and time.
    End(serde_json::Error),
}

/// `s` between double quotes.
pub open spec fn in_quotes(s: Seq<char>) -> Seq<char> {
    seq!['"'] + s + seq!['"']
}

/// The JSON text read for a slot's start: the text itself where it begins
/// with a double quote, else the text between double quotes.
pub open spec fn start_json(s: Seq<char>) -> Seq<char> {
    if s.len() > 0 && s[0] == '"' {
        s
    } else {
        in_quotes(s)
    }
}

/// The JSON text read for a slot's end: the text itself where it ends with a
/// double quote, else the text between double quotes.
pub open spec fn end_json(s: Seq<char>) -> Seq<char> {
    if s.len() > 0 && s[s.len() - 1] == '"' {
        s
    } else {
        in_quotes(s)
    }
}

/// `s` between double quotes, as a new string.
fn quote(s: &str) -> (r: String)
    ensures
        r@ == in_quotes(s@),
{
    let mut r = String::from_str("\"");
    r.append(s);
    r.append("\"");
    proof {
        reveal_strlit("\"");
        assert(r@ =~= in_quotes(s@));
    }
    r
}

impl Slot {
    /// Reads a slot from the texts of its start and end, each a date and time
    /// in RFC 3339 form, with or without the surrounding double quotes of a
    /// JSON string (the start is taken as quoted when it begins with a quote,
    /// the end when it ends with one). The start is read first.
    pub fn from_str(start: &str, end: &str) -> (r: Result<Slot, SlotParseError>)
        ensures
            json_datetime(start_json(start@)) is None <==> r matches Err(SlotParseError::Start(_)),
            json_datetime(start_json(start@)) is Some && json_datetime(end_json(end@)) is None
                <==> r matches Err(SlotParseError::End(_)),
            r matches Ok(slot) ==> json_datetime(start_json(start@)) == Some(slot.start)
                && json_datetime(end_json(end@)) == Some(slot.end),
    {
        let start_len = start.unicode_len();
        let start_text = if start_len > 0 && start.get_char(0) == '"' {
            String::from_str(start)
        } else {
            quote(start)
        };
        let end_len = end.unicode_len();
        let end_text = if end_len > 0 && end.get_char(end_len - 1) == '"' {
            String::from_str(end)
        } else {
            quote(end)
        };
        let start_at = match parse_json_datetime(start_text.as_str()) {
            Ok(t) => t,
            Err(e) => {
                return Err(SlotParseError::Start(e));
            },
        };
        let end_at = match parse_json_datetime(end_text.as_str()) {
            Ok(t) => t,
            Err(e) => {
                return Err(SlotParseError::End(e));
            },
        };
        Ok(Slot { start: start_at, end: end_at })
    }
}

/// A participant of a meeting.
#[derive(Clone, Debug, PartialEq, Eq, Hash)]
pub struct User {
    pub name: String,
    pub email: String,
}

/// What a user is: a name and an email address.
pub struct UserView {
    pub name: Seq<char>,
    pub email: Seq<char>,
}

impl View for User {
    type V = UserView;

    open spec fn view(&self) -> UserView {
        UserView { name: self.name@, email: self.email@ }
    }
}

impl User {
    /// A user with the given name and email address.
    pub fn new(name: &str, email: &str) -> (r: User)
        ensures
            r@ == (UserView { name: name@, email: email@ }),
    {
        User { name: String::from_str(name), email: String::from_str(email) }
    }
}

/// The body of a request to register under a name in a meeting.
#[derive(Debug)]
pub struct RegisterName {
    pub name: String,
}

/// A user's vote for a slot; the user is known by the email address.
#[derive(Clone, Debug, PartialEq, Eq, Hash)]
pub struct Vote {
    pub user_email: String,
    pub slot: Slot,
}

/// What a vote is: an email address and a slot.
pub struct VoteView {
    pub user_email: Seq<char>,
    pub slot: Slot,
}

impl View for Vote {
    type V = VoteView;

    open spec fn view(&self) -> VoteView {
        VoteView { user_email: self.user_email@, slot: self.slot }
    }
}

/// Why a change to a meeting was refused.
#[derive(Clone, Copy, Debug, PartialEq, Eq, Structural)]
pub enum MeetingError {
    /// Another user already has the name or the email address.
    ConflictingUser,
    /// The user still has votes.
    UserHasVotes,
    /// The slot still has votes.
    SlotHasVotes,
    /// The user is not among the meeting's users.
    UnknownUser,
    /// The slot is not among the meeting's slots.
    UnknownSlot,
}

/// An operation on a meeting, with what it is given: `Meeting::set_name`,
/// `set_comment`, `add_user`, `remove_user`, `add_slot`, `remove_slot`,
/// `add_vote` and `remove_vote`.
pub enum MeetingOp {
    SetName(Seq<char>),
    SetComment(Seq<char>),
    AddUser(UserView),
    RemoveUser(UserView),
    AddSlot(Slot),
    RemoveSlot(Slot),
    AddVote(UserView, Slot),
    RemoveVote(VoteView),
}

/// A meeting: an identity, a revision that changes with every change, a name,
/// a comment, and the sets of slots, users and votes.
pub struct Meeting {
    id: u128,
    revision: u128,
    name: String,
    comment: String,
    slots: Vec<Slot>,
    users: Vec<User>,
    votes: Vec<Vote>,
}

/// What a meeting is.
pub struct MeetingView {
    pub id: u128,
    pub revision: u128,
    pub name: Seq<char>,
    pub comment: Seq<char>,
    pub slots: Set<Slot>,
    pub users: Set<UserView>,
    pub votes: Set<VoteView>,
}

impl MeetingView {
    /// Some user already has `u`'s name or `u`'s email address.
    pub open spec fn has_conflict(self, u: UserView) -> bool {
        exists|x: UserView| #[trigger] self.users.contains(x) && (x.name == u.name || x.email == u.email)
    }

    /// Some vote was cast by the user with this email address.
    pub open spec fn has_votes_by(self, email: Seq<char>) -> bool {
        exists|v: VoteView| #[trigger] self.votes.contains(v) && v.user_email == email
    }

    /// Some vote was cast for this slot.
    pub open spec fn has_votes_for(self, slot: Slot) -> bool {
        exists|v: VoteView| #[trigger] self.votes.contains(v) && v.slot == slot
    }

    /// No two users share a name or an email address.
    pub open spec fn users_distinct(self) -> bool {
        forall|a: UserView, b: UserView|
            #![trigger self.users.contains(a), self.users.contains(b)]
            self.users.contains(a) && self.users.contains(b) && a != b ==> a.name != b.name
                && a.email != b.email
    }

    /// Every vote was cast by a user of the meeting for a slot of the meeting.
    pub open spec fn votes_refer(self) -> bool {
        forall|v: VoteView|
            #[trigger] self.votes.contains(v) ==> self.slots.contains(v.slot) && exists|u: UserView|
                #[trigger] self.users.contains(u) && u.email == v.user_email
    }

    /// `self` with other users and another revision.
    pub open spec fn with_users(self, users: Set<UserView>, revision: u128) -> MeetingView {
        MeetingView {
            id: self.id,
            revision: revision,
            name: self.name,
            comment: self.comment,
            slots: self.slots,
            users: users,
            votes: self.votes,
        }
    }

    /// `self` with other slots and another revision.
    pub open spec fn with_slots(self, slots: Set<Slot>, revision: u128) -> MeetingView {
        MeetingView {
            id: self.id,
            revision: revision,
            name: self.name,
            comment: self.comment,
            slots: slots,
            users: self.users,
            votes: self.votes,
        }
    }

    /// `self` with other votes and another revision.
    pub open spec fn with_votes(self, votes: Set<VoteView>, revision: u128) -> MeetingView {
        MeetingView {
            id: self.id,
            revision: revision,
            name: self.name,
            comment: self.comment,
            slots: self.slots,
            users: self.users,
            votes: votes,
        }
    }

    /// `self` with another name and another revision.
    pub open spec fn with_name(self, name: Seq<char>, revision: u128) -> MeetingView {
        MeetingView {
            id: self.id,
            revision: revision,
            name: name,
            comment: self.comment,
            slots: self.slots,
            users: self.users,
            votes: self.votes,
        }
    }

    /// `self` with another comment and another revision.
    pub open spec fn with_comment(self, comment: Seq<char>, revision: u128) -> MeetingView {
        MeetingView {
            id: self.id,
            revision: revision,
            name: self.name,
            comment: comment,
            slots: self.slots,
            users: self.users,
            votes: self.votes,
        }
    }

    /// What an operation of `Meeting` makes of the meeting, with `revision`
    /// as the revision drawn anew; a refused operation leaves it as it is.
    pub open spec fn apply(self, op: MeetingOp, revision: u128) -> MeetingView {
        match op {
            MeetingOp::SetName(name) => self.with_name(name, revision),
            MeetingOp::SetComment(comment) => self.with_comment(comment, revision),
            MeetingOp::AddUser(u) => if self.has_conflict(u) {
                self
            } else {
                self.with_users(self.users.insert(u), revision)
            },
            MeetingOp::RemoveUser(u) => if self.has_votes_by(u.email) {
                self
            } else {
                self.with_users(self.users.remove(u), revision)
            },
            MeetingOp::AddSlot(s) => self.with_slots(self.slots.insert(s), revision),
            MeetingOp::RemoveSlot(s) => if self.has_votes_for(s) {
                self
            } else {
                self.with_slots(self.slots.remove(s), revision)
            },
            MeetingOp::AddVote(u, s) => if self.users.contains(u) && self.slots.contains(s) {
                self.with_votes(self.votes.insert(VoteView { user_email: u.email, slot: s }), revision)
            } else {
                self
            },
            MeetingOp::RemoveVote(v) => self.with_votes(self.votes.remove(v), revision),
        }
    }
}

/// The 128-bit value is that of a version 4 UUID of the RFC 4122 variant: its
/// version digit is 4 and the two top bits of its variant byte are `10`.
pub open spec fn is_v4(u: u128) -> bool {
    u & 0xF000C000000000000000u128 == 0x40008000000000000000u128
}

/// Draws a fresh random identifier with `uuid::Uuid::new_v4` and returns its
/// 128-bit value. The contract claims only what `new_v4`'s source shows of
/// every outcome: it masks random bits with
/// `0xFFFFFFFFFFFF4FFFBFFFFFFFFFFFFFFF` and sets `0x40008000000000000000`,
/// so the value is a version 4 UUID. The other bits are random.
#[verifier::external_body]
pub(crate) fn fresh_uuid() -> (r: u128)
    ensures
        is_v4(r),
{
    uuid::Uuid::new_v4().as_u128()
}

/// A revision drawn anew for a meeting at revision `before`: a fresh random
/// identifier, which in the rare case that it equals `before` has its last
/// (random) bit flipped, so that a change always leaves the meeting at
/// another revision.
fn fresh_revision(before: u128) -> (r: u128)
    ensures
        r != before,
        is_v4(r),
{
    let r = fresh_uuid();
    if r == before {
        proof {
            assert((r & 0xF000C000000000000000u128 == 0x40008000000000000000u128) ==> ((r ^ 1u128)
                & 0xF000C000000000000000u128 == 0x40008000000000000000u128 && r ^ 1u128 != r))
                by (bit_vector);
        }
        r ^ 1
    } else {
        r
    }
}

impl View for Meeting {
    type V = MeetingView;

    closed spec fn view(&self) -> MeetingView {
        MeetingView {
            id: self.id,
            revision: self.revision,
            name: self.name@,
            comment: self.comment@,
            slots: self.slots@.to_set(),
            users: self.user_seq().to_set(),
            votes: self.vote_seq().to_set(),
        }
    }
}

impl Meeting {
    closed spec fn user_seq(&self) -> Seq<UserView> {
        self.users@.map_values(|u: User| u@)
    }

    closed spec fn vote_seq(&self) -> Seq<VoteView> {
        self.votes@.map_values(|v: Vote| v@)
    }

    /// The stored vectors hold no element twice.
    pub closed spec fn wf(&self) -> bool {
        &&& self.slots@.no_duplicates()
        &&& self.user_seq().no_duplicates()
        &&& self.vote_seq().no_duplicates()
    }

    /// A new meeting with the given name, random identity and revision, an
    /// empty comment and no slots, users or votes.
    pub fn new(name: &str) -> (r: Meeting)
        ensures
            r.wf(),
            r@.name == name@,
            r@.comment == Seq::<char>::empty(),
            r@.slots == Set::<Slot>::empty(),
            r@.users == Set::<UserView>::empty(),
            r@.votes == Set::<VoteView>::empty(),
            is_v4(r@.id),
            is_v4(r@.revision),
    {
        let r = Meeting {
            id: fresh_uuid(),
            revision: fresh_uuid(),
            name: String::from_str(name),
            comment: String::new(),
            slots: Vec::new(),
            users: Vec::new(),
            votes: Vec::new(),
        };
        proof {
            assert(r.user_seq() =~= Seq::<UserView>::empty());
            assert(r.vote_seq() =~= Seq::<VoteView>::empty());
            assert(r@.slots =~= Set::<Slot>::empty());
            assert(r@.users =~= Set::<UserView>::empty());
            assert(r@.votes =~= Set::<VoteView>::empty());
        }
        r
    }

    /// The meeting's identity.
    pub fn get_id(&self) -> (r: u128)
        ensures
            r == self@.id,
    {
        self.id
    }

    /// The meeting's revision.
    pub fn get_revision(&self) -> (r: u128)
        ensures
            r == self@.revision,
    {
        self.revision
    }

    /// The meeting's name.
    pub fn get_name(&self) -> (r: String)
        ensures
            r@ == self@.name,
    {
        self.name.clone()
    }

    /// The meeting's comment.
    pub fn get_comment(&self) -> (r: String)
        ensures
            r@ == self@.comment,
    {
        self.comment.clone()
    }

    /// Renames the meeting; the revision is drawn anew.
    pub fn set_name(&mut self, new_name: String)
        requires
            old(self).wf(),
        ensures
            final(self).wf(),
            final(self)@.revision != old(self)@.revision,
            is_v4(final(self)@.revision),
            final(self)@ == old(self)@.with_name(new_name@, final(self)@.revision),
            final(self)@ == old(self)@.apply(MeetingOp::SetName(new_name@), final(self)@.revision),
    {
        self.name = new_name;
        self.revision = fresh_revision(self.revision);
    }

    /// Replaces the comment; the revision is drawn anew.
    pub fn set_comment(&mut self, new_comment: &str)
        requires
            old(self).wf(),
        ensures
            final(self).wf(),
            final(self)@.revision != old(self)@.revision,
            is_v4(final(self)@.revision),
            final(self)@ == old(self)@.with_comment(new_comment@, final(self)@.revision),
            final(self)@ == old(self)@.apply(MeetingOp::SetComment(new_comment@), final(self)@.revision),
    {
        self.comment = String::from_str(new_comment);
        self.revision = fresh_revision(self.revision);
    }

    /// Position of a user equal to `user`, if any.
    fn find_user(&self, user: &User) -> (r: Option<usize>)
        ensures
            match r {
                Some(i) => i < self.users@.len() && self.users@[i as int]@ == user@,
                None => !self.user_seq().contains(user@),
            },
    {
        let mut i: usize = 0;
        while i < self.users.len()
            invariant
                0 <= i <= self.users@.len(),
                forall|k: int| 0 <= k < i ==> self.users@[k]@ != user@,
            decreases self.users@.len() - i,
        {
            if self.users[i].name == user.name && self.users[i].email == user.email {
                return Some(i);
            }
            i += 1;
        }
        proof {
            if self.user_seq().contains(user@) {
                let k = choose|k: int| 0 <= k < self.user_seq().len() && self.user_seq()[k] == user@;
                assert(self.users@[k]@ == user@);
            }
        }
        None
    }

    /// Position of the slot, if present.
    fn find_slot(&self, slot: &Slot) -> (r: Option<usize>)
        ensures
            match r {
                Some(i) => i < self.slots@.len() && self.slots@[i as int] == *slot,
                None => !self.slots@.contains(*slot),
            },
    {
        let mut i: usize = 0;
        while i < self.slots.len()
            invariant
                0 <= i <= self.slots@.len(),
                forall|k: int| 0 <= k < i ==> self.slots@[k] != *slot,
            decreases self.slots@.len() - i,
        {
            if self.slots[i] == *slot {
                return Some(i);
            }
            i += 1;
        }
        None
    }

    /// Position of a vote equal to `vote`, if any.
    fn find_vote(&self, vote: &Vote) -> (r: Option<usize>)
        ensures
            match r {
                Some(i) => i < self.votes@.len() && self.votes@[i as int]@ == vote@,
                None => !self.vote_seq().contains(vote@),
            },
    {
        let mut i: usize = 0;
        while i < self.votes.len()
            invariant
                0 <= i <= self.votes@.len(),
                forall|k: int| 0 <= k < i ==> self.votes@[k]@ != vote@,
            decreases self.votes@.len() - i,
        {
            if self.votes[i].user_email == vote.user_email && self.votes[i].slot == vote.slot {
                return Some(i);
            }
            i += 1;
        }
        proof {
            if self.vote_seq().contains(vote@) {
                let k = choose|k: int| 0 <= k < self.vote_seq().len() && self.vote_seq()[k] == vote@;
                assert(self.votes@[k]@ == vote@);
            }
        }
        None
    }

    /// Whether some user has `user`'s name or email address.
    fn has_conflicting_user(&self, user: &User) -> (r: bool)
        ensures
            r == self@.has_conflict(user@),
    {
        let mut i: usize = 0;
        while i < self.users.len()
            invariant
                0 <= i <= self.users@.len(),
                forall|k: int|
                    0 <= k < i ==> self.users@[k].name@ != user.name@ && self.users@[k].email@
                        != user.email@,
            decreases self.users@.len() - i,
        {
            if self.users[i].name == user.name || self.users[i].email == user.email {
                proof {
                    assert(self.user_seq()[i as int] == self.users@[i as int]@);
                    assert(self@.users.contains(self.users@[i as int]@));
                }
                return true;
            }
            i += 1;
        }
        proof {
            assert forall|x: UserView| #[trigger] self@.users.contains(x) implies !(x.name
                == user@.name || x.email == user@.email) by {
                let k = choose|k: int| 0 <= k < self.user_seq().len() && self.user_seq()[k] == x;
                assert(self.users@[k]@ == x);
            }
        }
        false
    }

    /// Whether some vote was cast by the user with this email address.
    fn has_votes_by(&self, email: &String) -> (r: bool)
        ensures
            r == self@.has_votes_by(email@),
    {
        let mut i: usize = 0;
        while i < self.votes.len()
            invariant
                0 <= i <= self.votes@.len(),
                forall|k: int| 0 <= k < i ==> self.votes@[k].user_email@ != email@,
            decreases self.votes@.len() - i,
        {
            if self.votes[i].user_email == *email {
                proof {
                    assert(self.vote_seq()[i as int] == self.votes@[i as int]@);
                    assert(self@.votes.contains(self.votes@[i as int]@));
                }
                return true;
            }
            i += 1;
        }
        proof {
            assert forall|v: VoteView| #[trigger] self@.votes.contains(v) implies v.user_email
                != email@ by {
                let k = choose|k: int| 0 <= k < self.vote_seq().len() && self.vote_seq()[k] == v;
                assert(self.votes@[k]@ == v);
            }
        }
        false
    }

    /// Whether some vote was cast for the slot.
    fn has_votes_for(&self, slot: &Slot) -> (r: bool)
        ensures
            r == self@.has_votes_for(*slot),
    {
        let mut i: usize = 0;
        while i < self.votes.len()
            invariant
                0 <= i <= self.votes@.len(),
                forall|k: int| 0 <= k < i ==> self.votes@[k].slot != *slot,
            decreases self.votes@.len() - i,
        {
            if self.votes[i].slot == *slot {
                proof {
                    assert(self.vote_seq()[i as int] == self.votes@[i as int]@);
                    assert(self@.votes.contains(self.votes@[i as int]@));
                }
                return true;
            }
            i += 1;
        }
        proof {
            assert forall|v: VoteView| #[trigger] self@.votes.contains(v) implies v.slot
                != *slot by {
                let k = choose|k: int| 0 <= k < self.vote_seq().len() && self.vote_seq()[k] == v;
                assert(self.votes@[k]@ == v);
            }
        }
        false
    }

    /// Adds a user, unless another user already has the same name or email
    /// address; then the meeting is left as it is. On success the revision is
    /// drawn anew.
    pub fn add_user(&mut self, user: User) -> (r: Result<(), MeetingError>)
        requires
            old(self).wf(),
        ensures
            final(self).wf(),
            r is Ok ==> final(self)@.revision != old(self)@.revision && is_v4(final(self)@.revision),
            r is Err <==> old(self)@.has_conflict(user@),
            (forall|x: UserView| #[trigger] old(self)@.users.contains(x) ==> x.name != user@.name
                && x.email != user@.email) ==> r is Ok,
            r is Err ==> exists|x: UserView| #[trigger] old(self)@.users.contains(x) && (x.name
                == user@.name || x.email == user@.email),
            final(self)@ == old(self)@.apply(MeetingOp::AddUser(user@), final(self)@.revision),
            r is Err ==> r == Err::<(), MeetingError>(MeetingError::ConflictingUser) && final(self)@ == old(self)@,
            r is Ok ==> final(self)@ == old(self)@.with_users(
                old(self)@.users.insert(user@),
                final(self)@.revision,
            ),
    {
        if self.has_conflicting_user(&user) {
            return Err(MeetingError::ConflictingUser);
        }
        self.insert_user(user);
        self.revision = fresh_revision(self.revision);
        Ok(())
    }

    /// Adds a slot; the slots are a set, so adding a present slot changes
    /// nothing but the revision, which is drawn anew.
    pub fn add_slot(&mut self, slot: Slot)
        requires
            old(self).wf(),
        ensures
            final(self).wf(),
            final(self)@.revision != old(self)@.revision,
            is_v4(final(self)@.revision),
            final(self)@ == old(self)@.with_slots(
                old(self)@.slots.insert(slot),
                final(self)@.revision,
            ),
            final(self)@ == old(self)@.apply(MeetingOp::AddSlot(slot), final(self)@.revision),
    {
        self.insert_slot(slot);
        self.revision = fresh_revision(self.revision);
    }

    /// Removes the user, unless a vote was cast with the user's email
    /// address; then the meeting is left as it is. On success the revision is
    /// drawn anew.
    pub fn remove_user(&mut self, user: User) -> (r: Result<(), MeetingError>)
        requires
            old(self).wf(),
        ensures
            final(self).wf(),
            r is Ok ==> final(self)@.revision != old(self)@.revision && is_v4(final(self)@.revision),
            r is Err <==> old(self)@.has_votes_by(user@.email),
            (forall|v: VoteView| #[trigger] old(self)@.votes.contains(v) ==> v.user_email != user@.email)
                ==> r is Ok,
            r is Err ==> exists|v: VoteView| #[trigger] old(self)@.votes.contains(v) && v.user_email
                == user@.email,
            final(self)@ == old(self)@.apply(MeetingOp::RemoveUser(user@), final(self)@.revision),
            r is Err ==> r == Err::<(), MeetingError>(MeetingError::UserHasVotes) && final(self)@ == old(self)@,
            r is Ok ==> final(self)@ == old(self)@.with_users(
                old(self)@.users.remove(user@),
                final(self)@.revision,
            ),
    {
        if self.has_votes_by(&user.email) {
            return Err(MeetingError::UserHasVotes);
        }
        match self.find_user(&user) {
            Some(i) => {
                let ghost old_seq = self.user_seq();
                proof {
                    lemma_remove_unique(old_seq, i as int);
                }
                self.users.remove(i);
                proof {
                    assert(self.user_seq() =~= old_seq.remove(i as int));
                }
            },
            None => {
                proof {
                    assert(self@.users.remove(user@) =~= self@.users);
                }
            },
        }
        self.revision = fresh_revision(self.revision);
        Ok(())
    }

    /// Removes the slot, unless a vote was cast for it; then the meeting is
    /// left as it is. On success the revision is drawn anew.
    pub fn remove_slot(&mut self, slot: Slot) -> (r: Result<(), MeetingError>)
        requires
            old(self).wf(),
        ensures
            final(self).wf(),
            r is Ok ==> final(self)@.revision != old(self)@.revision && is_v4(final(self)@.revision),
            r is Err <==> old(self)@.has_votes_for(slot),
            (forall|v: VoteView| #[trigger] old(self)@.votes.contains(v) ==> v.slot != slot) ==> r is Ok,
            r is Err ==> exists|v: VoteView| #[trigger] old(self)@.votes.contains(v) && v.slot == slot,
            final(self)@ == old(self)@.apply(MeetingOp::RemoveSlot(slot), final(self)@.revision),
            r is Err ==> r == Err::<(), MeetingError>(MeetingError::SlotHasVotes) && final(self)@ == old(self)@,
            r is Ok ==> final(self)@ == old(self)@.with_slots(
                old(self)@.slots.remove(slot),
                final(self)@.revision,
            ),
    {
        if self.has_votes_for(&slot) {
            return Err(MeetingError::SlotHasVotes);
        }
        self.remove_slot_unsafe(slot);
        Ok(())
    }

    /// Removes the slot whether or not votes were cast for it; such votes
    /// stay. The revision is drawn anew.
    pub fn remove_slot_unsafe(&mut self, slot: Slot)
        requires
            old(self).wf(),
        ensures
            final(self).wf(),
            final(self)@.revision != old(self)@.revision,
            is_v4(final(self)@.revision),
            final(self)@ == old(self)@.with_slots(
                old(self)@.slots.remove(slot),
                final(self)@.revision,
            ),
    {
        match self.find_slot(&slot) {
            Some(i) => {
                let ghost old_seq = self.slots@;
                proof {
                    lemma_remove_unique(old_seq, i as int);
                }
                self.slots.remove(i);
            },
            None => {
                proof {
                    assert(self@.slots.remove(slot) =~= self@.slots);
                }
            },
        }
        self.revision = fresh_revision(self.revision);
    }

    /// Records the user's vote for the slot. The user must be one of the
    /// meeting's users (checked first) and the slot one of its slots; else the
    /// meeting is left as it is. On success the revision is drawn anew.
    pub fn add_vote(&mut self, user: User, slot: Slot) -> (r: Result<(), MeetingError>)
        requires
            old(self).wf(),
        ensures
            final(self).wf(),
            r is Ok ==> final(self)@.revision != old(self)@.revision && is_v4(final(self)@.revision),
            !old(self)@.users.contains(user@) ==> r == Err::<(), MeetingError>(
                MeetingError::UnknownUser,
            ),
            old(self)@.users.contains(user@) && !old(self)@.slots.contains(slot) ==> r == Err::<
                (),
                MeetingError,
            >(MeetingError::UnknownSlot),
            r is Ok <==> old(self)@.users.contains(user@) && old(self)@.slots.contains(slot),
            final(self)@ == old(self)@.apply(MeetingOp::AddVote(user@, slot), final(self)@.revision),
            r is Err ==> final(self)@ == old(self)@,
            r is Ok ==> final(self)@ == old(self)@.with_votes(
                old(self)@.votes.insert(VoteView { user_email: user@.email, slot: slot }),
                final(self)@.revision,
            ),
    {
        match self.find_user(&user) {
            None => {
                return Err(MeetingError::UnknownUser);
            },
            Some(i) => {
                proof {
                    assert(self.user_seq()[i as int] == user@);
                    assert(self@.users.contains(user@));
                }
            },
        }
        if self.find_slot(&slot).is_none() {
            return Err(MeetingError::UnknownSlot);
        }
        self.insert_vote(Vote { user_email: user.email, slot });
        self.revision = fresh_revision(self.revision);
        Ok(())
    }

    /// Removes the vote, if present. The revision is drawn anew.
    pub fn remove_vote(&mut self, vote: &Vote)
        requires
            old(self).wf(),
        ensures
            final(self).wf(),
            final(self)@.revision != old(self)@.revision,
            is_v4(final(self)@.revision),
            final(self)@ == old(self)@.with_votes(
                old(self)@.votes.remove(vote@),
                final(self)@.revision,
            ),
            final(self)@ == old(self)@.apply(MeetingOp::RemoveVote(vote@), final(self)@.revision),
    {
        match self.find_vote(vote) {
            Some(i) => {
                let ghost old_seq = self.vote_seq();
                proof {
                    lemma_remove_unique(old_seq, i as int);
                }
                self.votes.remove(i);
                proof {
                    assert(self.vote_seq() =~= old_seq.remove(i as int));
                }
            },
            None => {
                proof {
                    assert(self@.votes.remove(vote@) =~= self@.votes);
                }
            },
        }
        self.revision = fresh_revision(self.revision);
    }

    /// A copy of the user.
    fn copy_user(u: &User) -> (r: User)
        ensures
            r@ == u@,
    {
        User { name: u.name.clone(), email: u.email.clone() }
    }

    /// A copy of the vote.
    fn copy_vote(v: &Vote) -> (r: Vote)
        ensures
            r@ == v@,
    {
        Vote { user_email: v.user_email.clone(), slot: v.slot }
    }

    /// A meeting made of its parts, as read back from storage; repeated
    /// elements of the vectors count once.
    pub fn from_parts(
        id: u128,
        revision: u128,
        name: String,
        comment: String,
        slots: Vec<Slot>,
        users: Vec<User>,
        votes: Vec<Vote>,
    ) -> (r: Meeting)
        ensures
            r.wf(),
            r@ == (MeetingView {
                id: id,
                revision: revision,
                name: name@,
                comment: comment@,
                slots: slots@.to_set(),
                users: users@.map_values(|u: User| u@).to_set(),
                votes: votes@.map_values(|v: Vote| v@).to_set(),
            }),
    {
        let mut m = Meeting {
            id,
            revision,
            name,
            comment,
            slots: Vec::new(),
            users: Vec::new(),
            votes: Vec::new(),
        };
        proof {
            assert(m.user_seq() =~= Seq::<UserView>::empty());
            assert(m.vote_seq() =~= Seq::<VoteView>::empty());
        }
        let mut i: usize = 0;
        while i < slots.len()
            invariant
                0 <= i <= slots@.len(),
                m.wf(),
                m@.id == id && m@.revision == revision,
                m@.name == name@ && m@.comment == comment@,
                m@.users == Set::<UserView>::empty(),
                m@.votes == Set::<VoteView>::empty(),
                m@.slots == slots@.take(i as int).to_set(),
            decreases slots@.len() - i,
        {
            m.insert_slot(slots[i]);
            proof {
                assert(slots@.take(i + 1) =~= slots@.take(i as int).push(slots@[i as int]));
                lemma_push_to_set(slots@.take(i as int), slots@[i as int]);
            }
            i += 1;
        }
        proof {
            assert(slots@.take(slots@.len() as int) =~= slots@);
        }
        let ghost user_views = users@.map_values(|u: User| u@);
        let mut i: usize = 0;
        while i < users.len()
            invariant
                0 <= i <= users@.len(),
                user_views == users@.map_values(|u: User| u@),
                m.wf(),
                m@.id == id && m@.revision == revision,
                m@.name == name@ && m@.comment == comment@,
                m@.slots == slots@.to_set(),
                m@.votes == Set::<VoteView>::empty(),
                m@.users == user_views.take(i as int).to_set(),
            decreases users@.len() - i,
        {
            let u = Self::copy_user(&users[i]);
            m.insert_user(u);
            proof {
                assert(user_views.take(i + 1) =~= user_views.take(i as int).push(user_views[i as int]));
                lemma_push_to_set(user_views.take(i as int), user_views[i as int]);
            }
            i += 1;
        }
        proof {
            assert(user_views.take(users@.len() as int) =~= user_views);
        }
        let ghost vote_views = votes@.map_values(|v: Vote| v@);
        let mut i: usize = 0;
        while i < votes.len()
            invariant
                0 <= i <= votes@.len(),
                vote_views == votes@.map_values(|v: Vote| v@),
                m.wf(),
                m@.id == id && m@.revision == revision,
                m@.name == name@ && m@.comment == comment@,
                m@.slots == slots@.to_set(),
                m@.users == user_views.to_set(),
                m@.votes == vote_views.take(i as int).to_set(),
            decreases votes@.len() - i,
        {
            let v = Self::copy_vote(&votes[i]);
            m.insert_vote(v);
            proof {
                assert(vote_views.take(i + 1) =~= vote_views.take(i as int).push(vote_views[i as int]));
                lemma_push_to_set(vote_views.take(i as int), vote_views[i as int]);
            }
            i += 1;
        }
        proof {
            assert(vote_views.take(votes@.len() as int) =~= vote_views);
        }
        m
    }

    /// Adds the slot to the set of slots; nothing else changes.
    fn insert_slot(&mut self, slot: Slot)
        requires
            old(self).wf(),
        ensures
            final(self).wf(),
            final(self)@ == old(self)@.with_slots(old(self)@.slots.insert(slot), old(self)@.revision),
    {
        match self.find_slot(&slot) {
            Some(_) => {
                proof {
                    assert(self@.slots.insert(slot) =~= self@.slots);
                }
            },
            None => {
                proof {
                    lemma_push_fresh(self.slots@, slot);
                }
                self.slots.push(slot);
            },
        }
    }

    /// Adds the user to the set of users; nothing else changes.
    fn insert_user(&mut self, user: User)
        requires
            old(self).wf(),
        ensures
            final(self).wf(),
            final(self)@ == old(self)@.with_users(old(self)@.users.insert(user@), old(self)@.revision),
    {
        let ghost u = user@;
        match self.find_user(&user) {
            Some(i) => {
                proof {
                    assert(self.user_seq()[i as int] == u);
                    assert(self@.users.insert(u) =~= self@.users);
                }
            },
            None => {
                let ghost old_seq = self.user_seq();
                proof {
                    lemma_push_fresh(old_seq, u);
                }
                self.users.push(user);
                proof {
                    assert(self.user_seq() =~= old_seq.push(u));
                }
            },
        }
    }

    /// Adds the vote to the set of votes; nothing else changes.
    fn insert_vote(&mut self, vote: Vote)
        requires
            old(self).wf(),
        ensures
            final(self).wf(),
            final(self)@ == old(self)@.with_votes(old(self)@.votes.insert(vote@), old(self)@.revision),
    {
        let ghost v = vote@;
        match self.find_vote(&vote) {
            Some(i) => {
                proof {
                    assert(self.vote_seq()[i as int] == v);
                    assert(self@.votes.insert(v) =~= self@.votes);
                }
            },
            None => {
                let ghost old_seq = self.vote_seq();
                proof {
                    lemma_push_fresh(old_seq, v);
                }
                self.votes.push(vote);
                proof {
                    assert(self.vote_seq() =~= old_seq.push(v));
                }
            },
        }
    }

    /// The slots, each once.
    pub fn slots(&self) -> (r: &Vec<Slot>)
        ensures
            r@.to_set() == self@.slots,
    {
        &self.slots
    }

    /// The users, each once.
    pub fn users(&self) -> (r: &Vec<User>)
        ensures
            r@.map_values(|u: User| u@).to_set() == self@.users,
    {
        &self.users
    }

    /// The votes, each once.
    pub fn votes(&self) -> (r: &Vec<Vote>)
        ensures
            r@.map_values(|v: Vote| v@).to_set() == self@.votes,
    {
        &self.votes
    }

    /// The user with this email address, if any.
    pub fn user_by_email(&self, email: &str) -> (r: Option<User>)
        ensures
            match r {
                Some(u) => self@.users.contains(u@) && u@.email == email@,
                None => !exists|x: UserView| #[trigger] self@.users.contains(x) && x.email == email@,
            },
    {
        let wanted = String::from_str(email);
        let mut i: usize = 0;
        while i < self.users.len()
            invariant
                0 <= i <= self.users@.len(),
                wanted@ == email@,
                forall|k: int| 0 <= k < i ==> self.users@[k].email@ != email@,
            decreases self.users@.len() - i,
        {
            if self.users[i].email == wanted {
                let u = Self::copy_user(&self.users[i]);
                proof {
                    assert(self.user_seq()[i as int] == u@);
                    assert(self.user_seq().contains(u@));
                    assert(self@.users.contains(u@));
                }
                return Some(u);
            }
            i += 1;
        }
        proof {
            assert forall|x: UserView| #[trigger] self@.users.contains(x) implies x.email != email@ by {
                let k = choose|k: int| 0 <= k < self.user_seq().len() && self.user_seq()[k] == x;
                assert(self.users@[k]@ == x);
            }
        }
        None
    }
}

} // verus!
