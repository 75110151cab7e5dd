//! What holds of meetings and logins across operations, stated over the
//! views and spec functions that the operations' contracts use.

use vstd::prelude::*;

use crate::claims::{
    accepted_at, admin_claims_json, TOKEN_LEEWAY_SECS, admin_token_claims, hs256_payload, meeting_claims_json,
    meeting_token_claims, times_json, AdminClaimsView, MeetingEmailClaimsView,
};
use crate::json::{decimal, json_string, lemma_decimal_prefix_code, lemma_json_string_prefix_code};
use crate::login::{has_match, is_first_match, login_matches, unmatched, LoginView};
use crate::seq_facts::lemma_cancel_prefix;
use crate::structs::{is_v4, MeetingOp, MeetingView, Slot, Timestamp, UserView, VoteView};

verus! {

/// A meeting is consistent when no two users share a name or an email
/// address and every vote was cast by one of its users for one of its slots.
pub open spec fn consistent(m: MeetingView) -> bool {
    m.users_distinct() && m.votes_refer()
}

/// A meeting without users, slots and votes, as `Meeting::new` makes it, is
/// consistent.
pub proof fn law_new_meeting_is_consistent(m: MeetingView)
    requires
        m.users == Set::<UserView>::empty(),
        m.slots == Set::<Slot>::empty(),
        m.votes == Set::<VoteView>::empty(),
    ensures
        consistent(m),
{
}

/// Adding a user that `Meeting::add_user` accepts (no user has the name or
/// the email address) keeps a meeting consistent.
pub proof fn law_add_user_keeps_consistency(m: MeetingView, u: UserView, revision: u128)
    requires
        consistent(m),
        !m.has_conflict(u),
    ensures
        consistent(m.with_users(m.users.insert(u), revision)),
{
    let n = m.with_users(m.users.insert(u), revision);
    assert forall|a: UserView, b: UserView|
        n.users.contains(a) && n.users.contains(b) && a != b implies a.name != b.name && a.email
        != b.email by {
        if a == u {
            assert(m.users.contains(b));
        } else if b == u {
            assert(m.users.contains(a));
        }
    }
    assert forall|v: VoteView| #[trigger] n.votes.contains(v) implies n.slots.contains(v.slot)
        && exists|x: UserView| #[trigger] n.users.contains(x) && x.email == v.user_email by {
        let x = choose|x: UserView| #[trigger] m.users.contains(x) && x.email == v.user_email;
        assert(n.users.contains(x));
    }
}

/// Removing a user that `Meeting::remove_user` accepts (no vote carries the
/// user's email address) keeps a meeting consistent.
pub proof fn law_remove_user_keeps_consistency(m: MeetingView, u: UserView, revision: u128)
    requires
        consistent(m),
        !m.has_votes_by(u.email),
    ensures
        consistent(m.with_users(m.users.remove(u), revision)),
{
    let n = m.with_users(m.users.remove(u), revision);
    assert forall|a: UserView, b: UserView|
        n.users.contains(a) && n.users.contains(b) && a != b implies a.name != b.name && a.email
        != b.email by {
        assert(m.users.contains(a) && m.users.contains(b));
    }
    assert forall|v: VoteView| #[trigger] n.votes.contains(v) implies n.slots.contains(v.slot)
        && exists|x: UserView| #[trigger] n.users.contains(x) && x.email == v.user_email by {
        let x = choose|x: UserView| #[trigger] m.users.contains(x) && x.email == v.user_email;
        assert(x != u);
        assert(n.users.contains(x));
    }
}

/// Adding a slot keeps a meeting consistent.
pub proof fn law_add_slot_keeps_consistency(m: MeetingView, s: Slot, revision: u128)
    requires
        consistent(m),
    ensures
        consistent(m.with_slots(m.slots.insert(s), revision)),
{
    let n = m.with_slots(m.slots.insert(s), revision);
    assert forall|v: VoteView| #[trigger] n.votes.contains(v) implies n.slots.contains(v.slot)
        && exists|x: UserView| #[trigger] n.users.contains(x) && x.email == v.user_email by {
        let x = choose|x: UserView| #[trigger] m.users.contains(x) && x.email == v.user_email;
        assert(n.users.contains(x));
    }
}

/// Removing a slot that `Meeting::remove_slot` accepts (no vote was cast for
/// it) keeps a meeting consistent.
pub proof fn law_remove_slot_keeps_consistency(m: MeetingView, s: Slot, revision: u128)
    requires
        consistent(m),
        !m.has_votes_for(s),
    ensures
        consistent(m.with_slots(m.slots.remove(s), revision)),
{
    let n = m.with_slots(m.slots.remove(s), revision);
    assert forall|v: VoteView| #[trigger] n.votes.contains(v) implies n.slots.contains(v.slot)
        && exists|x: UserView| #[trigger] n.users.contains(x) && x.email == v.user_email by {
        assert(v.slot != s);
        let x = choose|x: UserView| #[trigger] m.users.contains(x) && x.email == v.user_email;
        assert(n.users.contains(x));
    }
}

/// Adding a vote that `Meeting::add_vote` accepts (one of the meeting's
/// users for one of its slots) keeps a meeting consistent.
pub proof fn law_add_vote_keeps_consistency(m: MeetingView, u: UserView, s: Slot, revision: u128)
    requires
        consistent(m),
        m.users.contains(u),
        m.slots.contains(s),
    ensures
        consistent(
            m.with_votes(m.votes.insert(VoteView { user_email: u.email, slot: s }), revision),
        ),
{
    let n = m.with_votes(m.votes.insert(VoteView { user_email: u.email, slot: s }), revision);
    assert forall|v: VoteView| #[trigger] n.votes.contains(v) implies n.slots.contains(v.slot)
        && exists|x: UserView| #[trigger] n.users.contains(x) && x.email == v.user_email by {
        if v == (VoteView { user_email: u.email, slot: s }) {
            assert(n.users.contains(u));
        } else {
            let x = choose|x: UserView| #[trigger] m.users.contains(x) && x.email == v.user_email;
            assert(n.users.contains(x));
        }
    }
}

/// Removing a vote keeps a meeting consistent.
pub proof fn law_remove_vote_keeps_consistency(m: MeetingView, v: VoteView, revision: u128)
    requires
        consistent(m),
    ensures
        consistent(m.with_votes(m.votes.remove(v), revision)),
{
    let n = m.with_votes(m.votes.remove(v), revision);
    assert forall|w: VoteView| #[trigger] n.votes.contains(w) implies n.slots.contains(w.slot)
        && exists|x: UserView| #[trigger] n.users.contains(x) && x.email == w.user_email by {
        assert(m.votes.contains(w));
        let x = choose|x: UserView| #[trigger] m.users.contains(x) && x.email == w.user_email;
        assert(n.users.contains(x));
    }
}

/// Renaming a meeting or changing its comment keeps it consistent.
pub proof fn law_rename_and_comment_keep_consistency(
    m: MeetingView,
    name: Seq<char>,
    comment: Seq<char>,
    revision: u128,
)
    requires
        consistent(m),
    ensures
        consistent(m.with_name(name, revision)),
        consistent(m.with_comment(comment, revision)),
{
    let a = m.with_name(name, revision);
    let b = m.with_comment(comment, revision);
    assert forall|v: VoteView| #[trigger] a.votes.contains(v) implies a.slots.contains(v.slot)
        && exists|x: UserView| #[trigger] a.users.contains(x) && x.email == v.user_email by {
        let x = choose|x: UserView| #[trigger] m.users.contains(x) && x.email == v.user_email;
        assert(a.users.contains(x));
    }
    assert forall|v: VoteView| #[trigger] b.votes.contains(v) implies b.slots.contains(v.slot)
        && exists|x: UserView| #[trigger] b.users.contains(x) && x.email == v.user_email by {
        let x = choose|x: UserView| #[trigger] m.users.contains(x) && x.email == v.user_email;
        assert(b.users.contains(x));
    }
}

/// What a sequence of operations makes of a meeting, each with the revision
/// drawn anew for it, applied in order.
pub open spec fn apply_all(m: MeetingView, ops: Seq<(MeetingOp, u128)>) -> MeetingView
    decreases ops.len(),
{
    if ops.len() == 0 {
        m
    } else {
        apply_all(m, ops.drop_last()).apply(ops.last().0, ops.last().1)
    }
}

/// Every operation of `Meeting` keeps a meeting consistent, whether it
/// succeeds or is refused.
pub proof fn law_operation_keeps_consistency(m: MeetingView, op: MeetingOp, revision: u128)
    requires
        consistent(m),
    ensures
        consistent(m.apply(op, revision)),
{
    match op {
        MeetingOp::SetName(name) => law_rename_and_comment_keep_consistency(m, name, name, revision),
        MeetingOp::SetComment(c) => law_rename_and_comment_keep_consistency(m, c, c, revision),
        MeetingOp::AddUser(u) => if !m.has_conflict(u) {
            law_add_user_keeps_consistency(m, u, revision);
        },
        MeetingOp::RemoveUser(u) => if !m.has_votes_by(u.email) {
            law_remove_user_keeps_consistency(m, u, revision);
        },
        MeetingOp::AddSlot(s) => law_add_slot_keeps_consistency(m, s, revision),
        MeetingOp::RemoveSlot(s) => if !m.has_votes_for(s) {
            law_remove_slot_keeps_consistency(m, s, revision);
        },
        MeetingOp::AddVote(u, s) => if m.users.contains(u) && m.slots.contains(s) {
            law_add_vote_keeps_consistency(m, u, s, revision);
        },
        MeetingOp::RemoveVote(v) => law_remove_vote_keeps_consistency(m, v, revision),
    }
}

/// Any sequence of operations of `Meeting` keeps a consistent meeting
/// consistent.
pub proof fn law_operations_keep_consistency(m: MeetingView, ops: Seq<(MeetingOp, u128)>)
    requires
        consistent(m),
    ensures
        consistent(apply_all(m, ops)),
    decreases ops.len(),
{
    if ops.len() > 0 {
        law_operations_keep_consistency(m, ops.drop_last());
        law_operation_keeps_consistency(apply_all(m, ops.drop_last()), ops.last().0, ops.last().1);
    }
}

/// A meeting made by `Meeting::new` and then changed by any sequence of
/// operations of `Meeting` is consistent: every vote is by one of its users
/// for one of its slots, and no two users share a name or an email address.
pub proof fn law_built_meetings_are_consistent(m: MeetingView, ops: Seq<(MeetingOp, u128)>)
    requires
        m.users == Set::<UserView>::empty(),
        m.slots == Set::<Slot>::empty(),
        m.votes == Set::<VoteView>::empty(),
    ensures
        consistent(apply_all(m, ops)),
{
    law_new_meeting_is_consistent(m);
    law_operations_keep_consistency(m, ops);
}

/// Removing a vote undoes adding it, when it was not there before.
pub proof fn law_remove_vote_undoes_add_vote(m: MeetingView, v: VoteView, r1: u128, r2: u128)
    requires
        !m.votes.contains(v),
    ensures
        ({
            let added = m.with_votes(m.votes.insert(v), r1);
            added.with_votes(added.votes.remove(v), r2).votes == m.votes
        }),
{
    assert(m.votes.insert(v).remove(v) =~= m.votes);
}

/// Removing a user undoes adding the user, when the user was not there
/// before.
pub proof fn law_remove_user_undoes_add_user(m: MeetingView, u: UserView, r1: u128, r2: u128)
    requires
        !m.users.contains(u),
    ensures
        ({
            let added = m.with_users(m.users.insert(u), r1);
            added.with_users(added.users.remove(u), r2).users == m.users
        }),
{
    assert(m.users.insert(u).remove(u) =~= m.users);
}

/// Adding a slot that is already there changes no slot.
pub proof fn law_add_slot_is_idempotent(m: MeetingView, s: Slot, revision: u128)
    requires
        m.slots.contains(s),
    ensures
        m.with_slots(m.slots.insert(s), revision).slots == m.slots,
{
    assert(m.slots.insert(s) =~= m.slots);
}

/// A login link works once: after an attempt (however it ended) no pending
/// login matches the meeting, the email address and the secret.
pub proof fn law_login_link_is_used_once(
    logins: Seq<LoginView>,
    meeting: Seq<char>,
    email: Seq<char>,
    secret: Seq<char>,
)
    ensures
        !has_match(unmatched(logins, meeting, email, secret), meeting, email, secret),
    decreases logins.len(),
{
    if logins.len() > 0 {
        law_login_link_is_used_once(logins.drop_last(), meeting, email, secret);
        let rest = unmatched(logins.drop_last(), meeting, email, secret);
        if !login_matches(logins.last(), meeting, email, secret) {
            assert forall|i: int| 0 <= i < rest.push(logins.last()).len() implies !login_matches(
                #[trigger] rest.push(logins.last())[i],
                meeting,
                email,
                secret,
            ) by {
                if i < rest.len() {
                    assert(rest.push(logins.last())[i] == rest[i]);
                }
            }
        }
    }
}

/// An attempt keeps every pending login that does not match.
pub proof fn law_attempt_keeps_other_logins(
    logins: Seq<LoginView>,
    meeting: Seq<char>,
    email: Seq<char>,
    secret: Seq<char>,
    l: LoginView,
)
    requires
        !login_matches(l, meeting, email, secret),
    ensures
        unmatched(logins, meeting, email, secret).contains(l) <==> logins.contains(l),
    decreases logins.len(),
{
    if logins.len() > 0 {
        let init = logins.drop_last();
        law_attempt_keeps_other_logins(init, meeting, email, secret, l);
        let rest = unmatched(init, meeting, email, secret);
        if logins.contains(l) {
            let k = choose|k: int| 0 <= k < logins.len() && logins[k] == l;
            if k < init.len() {
                assert(init[k] == l);
                let j = choose|j: int| 0 <= j < rest.len() && rest[j] == l;
                if !login_matches(logins.last(), meeting, email, secret) {
                    assert(rest.push(logins.last())[j] == l);
                }
            } else {
                assert(rest.push(logins.last())[rest.len() as int] == l);
            }
        }
        if unmatched(logins, meeting, email, secret).contains(l) {
            let u = unmatched(logins, meeting, email, secret);
            let j = choose|j: int| 0 <= j < u.len() && u[j] == l;
            if j < rest.len() {
                assert(!login_matches(logins.last(), meeting, email, secret) ==> u[j] == rest[j]);
                assert(rest.contains(l));
                let k = choose|k: int| 0 <= k < init.len() && init[k] == l;
                assert(logins[k] == l);
            } else {
                assert(logins[logins.len() - 1] == l);
            }
        }
    }
}

/// A link registered for a meeting, an email address and a secret that no
/// pending login had before is the first match for them, so that using it
/// succeeds exactly while its deadline lies ahead.
pub proof fn law_registered_link_is_first_match(logins: Seq<LoginView>, l: LoginView)
    requires
        !has_match(logins, l.meeting, l.email, l.secret),
    ensures
        has_match(logins.push(l), l.meeting, l.email, l.secret),
        is_first_match(logins.push(l), l.meeting, l.email, l.secret, logins.len() as int),
{
    let p = logins.push(l);
    assert(p[logins.len() as int] == l);
    assert forall|j: int| 0 <= j < logins.len() implies !login_matches(
        #[trigger] p[j],
        l.meeting,
        l.email,
        l.secret,
    ) by {
        assert(p[j] == logins[j]);
    }
}

/// The text from `,"iat":` on names the times.
proof fn lemma_times_json_injective(i1: u64, e1: u64, i2: u64, e2: u64)
    requires
        times_json(i1, e1) == times_json(i2, e2),
    ensures
        i1 == i2,
        e1 == e2,
{
    reveal_strlit(",\"iat\":");
    reveal_strlit(",\"exp\":");
    reveal_strlit("}");
    let tail1 = ",\"exp\":"@ + (decimal(e1 as nat) + "}"@);
    let tail2 = ",\"exp\":"@ + (decimal(e2 as nat) + "}"@);
    lemma_cancel_prefix(",\"iat\":"@, decimal(i1 as nat) + tail1, decimal(i2 as nat) + tail2);
    lemma_decimal_prefix_code(i1 as nat, i2 as nat, tail1, tail2);
    lemma_cancel_prefix(",\"exp\":"@, decimal(e1 as nat) + "}"@, decimal(e2 as nat) + "}"@);
    lemma_decimal_prefix_code(e1 as nat, e2 as nat, "}"@, "}"@);
}

/// A meeting login token's payload names its claims: claims with the same
/// JSON text are the same claims, so no two logins share a payload.
pub proof fn law_meeting_claims_json_is_injective(c1: MeetingEmailClaimsView, c2: MeetingEmailClaimsView)
    requires
        meeting_claims_json(c1) == meeting_claims_json(c2),
    ensures
        c1 == c2,
{
    let from_iat1 = times_json(c1.iat, c1.exp);
    let from_iat2 = times_json(c2.iat, c2.exp);
    let from_email1 = ",\"email\":"@ + (json_string(c1.email) + from_iat1);
    let from_email2 = ",\"email\":"@ + (json_string(c2.email) + from_iat2);
    lemma_cancel_prefix(
        "{\"meeting\":"@,
        json_string(c1.meeting) + from_email1,
        json_string(c2.meeting) + from_email2,
    );
    lemma_json_string_prefix_code(c1.meeting, c2.meeting, from_email1, from_email2);
    lemma_cancel_prefix(
        ",\"email\":"@,
        json_string(c1.email) + from_iat1,
        json_string(c2.email) + from_iat2,
    );
    lemma_json_string_prefix_code(c1.email, c2.email, from_iat1, from_iat2);
    lemma_times_json_injective(c1.iat, c1.exp, c2.iat, c2.exp);
}

/// An administrator token's payload names its claims: claims with the same
/// JSON text are the same claims.
pub proof fn law_admin_claims_json_is_injective(c1: AdminClaimsView, c2: AdminClaimsView)
    requires
        admin_claims_json(c1) == admin_claims_json(c2),
    ensures
        c1 == c2,
{
    reveal_strlit("{\"iat\":");
    reveal_strlit(",\"exp\":");
    reveal_strlit("}");
    let tail1 = ",\"exp\":"@ + (decimal(c1.exp as nat) + "}"@);
    let tail2 = ",\"exp\":"@ + (decimal(c2.exp as nat) + "}"@);
    lemma_cancel_prefix("{\"iat\":"@, decimal(c1.iat as nat) + tail1, decimal(c2.iat as nat) + tail2);
    lemma_decimal_prefix_code(c1.iat as nat, c2.iat as nat, tail1, tail2);
    lemma_cancel_prefix(",\"exp\":"@, decimal(c1.exp as nat) + "}"@, decimal(c2.exp as nat) + "}"@);
    lemma_decimal_prefix_code(c1.exp as nat, c2.exp as nat, "}"@, "}"@);
}

/// A token that carries the JSON text of meeting login claims, as `sign`
/// and `to_jwt` make it, reads back as exactly those claims while they are
/// accepted, and as nothing once they are not.
pub proof fn law_signed_meeting_claims_read_back(
    token: Seq<char>,
    secret: Seq<char>,
    c: MeetingEmailClaimsView,
    now: u64,
)
    requires
        hs256_payload(token, secret) == Some(meeting_claims_json(c)),
    ensures
        accepted_at(c.exp, now) ==> meeting_token_claims(token, secret, now) == Some(c),
        !accepted_at(c.exp, now) ==> meeting_token_claims(token, secret, now) is None,
{
    if exists|d: MeetingEmailClaimsView|
        hs256_payload(token, secret) == Some(#[trigger] meeting_claims_json(d)) && accepted_at(d.exp, now) {
        let d = choose|d: MeetingEmailClaimsView|
            hs256_payload(token, secret) == Some(#[trigger] meeting_claims_json(d)) && accepted_at(
                d.exp,
                now,
            );
        law_meeting_claims_json_is_injective(c, d);
    }
}

/// A token that carries the JSON text of administrator claims reads back as
/// exactly those claims while they are accepted, and as nothing once they
/// are not.
pub proof fn law_signed_admin_claims_read_back(
    token: Seq<char>,
    secret: Seq<char>,
    c: AdminClaimsView,
    now: u64,
)
    requires
        hs256_payload(token, secret) == Some(admin_claims_json(c)),
    ensures
        accepted_at(c.exp, now) ==> admin_token_claims(token, secret, now) == Some(c),
        !accepted_at(c.exp, now) ==> admin_token_claims(token, secret, now) is None,
{
    if exists|d: AdminClaimsView|
        hs256_payload(token, secret) == Some(#[trigger] admin_claims_json(d)) && accepted_at(d.exp, now) {
        let d = choose|d: AdminClaimsView|
            hs256_payload(token, secret) == Some(#[trigger] admin_claims_json(d)) && accepted_at(
                d.exp,
                now,
            );
        law_admin_claims_json_is_injective(c, d);
    }
}

/// Removing a user is refused exactly when some vote of the meeting carries
/// the user's email address: a user without votes is always removed, whatever
/// votes others have cast.
pub proof fn law_remove_user_is_refused_only_for_the_users_votes(
    m: MeetingView,
    u: UserView,
    revision: u128,
)
    ensures
        (forall|v: VoteView| #[trigger] m.votes.contains(v) ==> v.user_email != u.email) ==> m.apply(
            MeetingOp::RemoveUser(u),
            revision,
        ) == m.with_users(m.users.remove(u), revision),
        (exists|v: VoteView| #[trigger] m.votes.contains(v) && v.user_email == u.email) ==> m.apply(
            MeetingOp::RemoveUser(u),
            revision,
        ) == m,
{
}

/// Removing a slot is refused exactly when some vote of the meeting is for
/// that slot: a slot without votes is always removed.
pub proof fn law_remove_slot_is_refused_only_for_the_slots_votes(
    m: MeetingView,
    s: Slot,
    revision: u128,
)
    ensures
        (forall|v: VoteView| #[trigger] m.votes.contains(v) ==> v.slot != s) ==> m.apply(
            MeetingOp::RemoveSlot(s),
            revision,
        ) == m.with_slots(m.slots.remove(s), revision),
        (exists|v: VoteView| #[trigger] m.votes.contains(v) && v.slot == s) ==> m.apply(
            MeetingOp::RemoveSlot(s),
            revision,
        ) == m,
{
}

/// Adding a user is refused exactly when a user of the meeting already has
/// the name or the email address: any other user is added.
pub proof fn law_add_user_is_refused_only_for_a_taken_name_or_email(
    m: MeetingView,
    u: UserView,
    revision: u128,
)
    ensures
        (forall|x: UserView| #[trigger] m.users.contains(x) ==> x.name != u.name && x.email != u.email)
            ==> m.apply(MeetingOp::AddUser(u), revision) == m.with_users(m.users.insert(u), revision),
        (exists|x: UserView| #[trigger] m.users.contains(x) && (x.name == u.name || x.email == u.email))
            ==> m.apply(MeetingOp::AddUser(u), revision) == m,
{
}

/// A vote is recorded exactly when the voter is one of the meeting's users
/// and the slot one of its slots; it is then among the meeting's votes.
pub proof fn law_add_vote_records_the_vote(m: MeetingView, u: UserView, s: Slot, revision: u128)
    ensures
        m.users.contains(u) && m.slots.contains(s) ==> m.apply(MeetingOp::AddVote(u, s), revision).votes
            == m.votes.insert(VoteView { user_email: u.email, slot: s }),
        !(m.users.contains(u) && m.slots.contains(s)) ==> m.apply(MeetingOp::AddVote(u, s), revision)
            == m,
{
}

/// A version 4 identifier, as every new meeting's identity and revision is,
/// is never the nil UUID nor the all-ones one.
pub proof fn law_v4_identifiers_are_not_nil(u: u128)
    requires
        is_v4(u),
    ensures
        u != 0,
        u != 0xFFFF_FFFF_FFFF_FFFF_FFFF_FFFF_FFFF_FFFFu128,
{
    assert(is_v4(u) ==> u != 0 && u != 0xFFFF_FFFF_FFFF_FFFF_FFFF_FFFF_FFFF_FFFFu128) by (bit_vector);
}

/// A login link matches a pending login exactly when the meeting, the email
/// address and the secret are all the login's: a login made for one meeting
/// never admits to another.
pub proof fn law_a_link_matches_only_its_own_login(
    logins: Seq<LoginView>,
    meeting: Seq<char>,
    email: Seq<char>,
    secret: Seq<char>,
)
    ensures
        has_match(logins, meeting, email, secret) <==> exists|i: int|
            0 <= i < logins.len() && (#[trigger] logins[i]).meeting == meeting && logins[i].email
                == email && logins[i].secret == secret,
{
}

/// The order of moments by which deadlines are judged is the order of time:
/// no moment lies before itself, it is transitive and total, and a moment in
/// an earlier second lies before one in a later second.
pub proof fn law_moments_are_ordered_by_time(a: Timestamp, b: Timestamp, c: Timestamp)
    ensures
        !a.precedes(a),
        a.precedes(b) && b.precedes(c) ==> a.precedes(c),
        a.precedes(b) || b.precedes(a) || a == b,
        a.precedes(b) ==> !b.precedes(a),
        a.secs < b.secs ==> a.precedes(b),
        a.secs == b.secs ==> (a.precedes(b) <==> a.nanos < b.nanos),
{
}

/// A token is accepted until `TOKEN_LEEWAY_SECS` (a minute) after its
/// expiry and refused from then on: acceptance only ends as time goes on.
pub proof fn law_tokens_are_accepted_until_a_minute_after_expiry(exp: u64, now: u64, later: u64)
    ensures
        TOKEN_LEEWAY_SECS == 60,
        now <= exp ==> accepted_at(exp, now),
        now <= exp + 60 ==> accepted_at(exp, now),
        now > exp + 60 ==> !accepted_at(exp, now),
        now <= later && accepted_at(exp, later) ==> accepted_at(exp, now),
{
}

} // verus!
