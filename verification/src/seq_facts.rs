//! Facts about sequences used as sets (sequences without duplicates).

use vstd::prelude::*;

verus! {

/// Removing the element at `i` from a sequence without duplicates removes
/// exactly that element from its set, and keeps the sequence free of duplicates.
pub proof fn lemma_remove_unique<A>(s: Seq<A>, i: int)
    requires
        s.no_duplicates(),
        0 <= i < s.len(),
    ensures
        s.remove(i).no_duplicates(),
        s.remove(i).to_set() =~= s.to_set().remove(s[i]),
{
    s.remove_ensures(i);
    let r = s.remove(i);
    assert forall|a: A| #[trigger] r.to_set().contains(a) <==> s.to_set().remove(s[i]).contains(a) by {
        if r.contains(a) {
            let k = choose|k: int| 0 <= k < r.len() && r[k] == a;
            if k < i {
                assert(s[k] == a);
            } else {
                assert(s[k + 1] == a);
            }
        }
        if s.contains(a) && a != s[i] {
            let k = choose|k: int| 0 <= k < s.len() && s[k] == a;
            if k < i {
                assert(r[k] == a);
            } else {
                assert(k != i);
                assert(r[k - 1] == a);
            }
        }
    }
    assert forall|x: int, y: int| 0 <= x < r.len() && 0 <= y < r.len() && x != y implies r[x] != r[y] by {
        let sx = if x < i { x } else { x + 1 };
        let sy = if y < i { y } else { y + 1 };
        assert(r[x] == s[sx]);
        assert(r[y] == s[sy]);
    }
}

/// Pushing an element that is not yet present keeps a sequence free of
/// duplicates and adds exactly that element to its set.
pub proof fn lemma_push_fresh<A>(s: Seq<A>, a: A)
    requires
        s.no_duplicates(),
        !s.contains(a),
    ensures
        s.push(a).no_duplicates(),
        s.push(a).to_set() =~= s.to_set().insert(a),
{
    let p = s.push(a);
    assert forall|b: A| #[trigger] p.to_set().contains(b) <==> s.to_set().insert(a).contains(b) by {
        if p.contains(b) {
            let k = choose|k: int| 0 <= k < p.len() && p[k] == b;
            if k < s.len() {
                assert(s[k] == b);
            }
        }
        if s.contains(b) {
            let k = choose|k: int| 0 <= k < s.len() && s[k] == b;
            assert(p[k] == b);
        }
        if b == a {
            assert(p[s.len() as int] == a);
        }
    }
    assert forall|x: int, y: int| 0 <= x < p.len() && 0 <= y < p.len() && x != y implies p[x] != p[y] by {
        if x == s.len() {
            assert(s[y] != a);
        } else if y == s.len() {
            assert(s[x] != a);
        }
    }
}

/// The set of a sequence with one more element at the end is the set with
/// that element added.
pub proof fn lemma_push_to_set<A>(s: Seq<A>, a: A)
    ensures
        s.push(a).to_set() =~= s.to_set().insert(a),
{
    let p = s.push(a);
    assert forall|b: A| #[trigger] p.to_set().contains(b) <==> s.to_set().insert(a).contains(b) by {
        if p.contains(b) {
            let k = choose|k: int| 0 <= k < p.len() && p[k] == b;
            if k < s.len() {
                assert(s[k] == b);
            }
        }
        if s.contains(b) {
            let k = choose|k: int| 0 <= k < s.len() && s[k] == b;
            assert(p[k] == b);
        }
        if b == a {
            assert(p[s.len() as int] == a);
        }
    }
}

/// A common beginning can be taken away from both sides of an equality.
pub proof fn lemma_cancel_prefix<A>(p: Seq<A>, x: Seq<A>, y: Seq<A>)
    requires
        p + x == p + y,
    ensures
        x == y,
{
    assert(x =~= (p + x).skip(p.len() as int));
    assert(y =~= (p + y).skip(p.len() as int));
}

} // verus!
