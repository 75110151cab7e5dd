//! Reading back JSON text in the form that `serde_json` writes: strings with
//! their escapes and unsigned integers in decimal. A reader accepts exactly
//! that form.

use vstd::prelude::*;
use vstd::string::StrSliceExecFns;
use vstd::utf8::char_u32_cast;

use crate::json::{
    decimal, decimal_value, digit_value, escape_char, escaped, hex_digit, is_decimal_digit, json_number_of,
    json_string, lemma_decimal_reads_back, lemma_escape_char_prefix_code, lemma_escape_char_shape,
    is_plain_char, law_plain_strings_are_written_as_they_stand, lemma_escaped_first, push_char,
};

verus! {

/// The characters of `s`, one by one.
pub fn chars_of(s: &str) -> (r: Vec<char>)
    ensures
        r@ == s@,
{
    let n = s.unicode_len();
    let mut r: Vec<char> = Vec::new();
    let mut i: usize = 0;
    while i < n
        invariant
            n == s@.len(),
            0 <= i <= n,
            r@ == s@.subrange(0, i as int),
        decreases n - i,
    {
        r.push(s.get_char(i));
        i += 1;
        proof {
            assert(r@ =~= s@.subrange(0, i as int));
        }
    }
    proof {
        assert(r@ =~= s@);
    }
    r
}

/// The character whose code is `v`, below U+0020.
fn control_char(v: u32) -> (c: char)
    requires
        v < 0x20,
    ensures
        c as u32 == v,
{
    (v as u8) as char
}

/// The value of a lower-case hexadecimal digit.
fn hex_value(c: char) -> (r: Option<u32>)
    ensures
        r matches Some(v) ==> v < 16 && hex_digit(v as int) == c,
        r is None ==> forall|v: int| 0 <= v < 16 ==> hex_digit(v) != c,
{
    let n = c as u32;
    if 0x30 <= n && n <= 0x39 {
        Some(n - 0x30)
    } else if 0x61 <= n && n <= 0x66 {
        Some(n - 0x61 + 10)
    } else {
        None
    }
}

/// `t` begins with `p`.
pub open spec fn begins_with(t: Seq<char>, p: Seq<char>) -> bool {
    p.len() <= t.len() && t.subrange(0, p.len() as int) == p
}

/// Reads the character written at `q` as inside a JSON string: `Some((c,
/// e))` where the text from `q` to `e` is how `c` is written; `None` where
/// no character is written so at `q`.
pub fn read_escape(t: &Vec<char>, q: usize) -> (r: Option<(char, usize)>)
    requires
        q < t@.len(),
    ensures
        r matches Some((c, e)) ==> q < e <= t@.len() && t@.skip(q as int) == escape_char(c) + t@.skip(
            e as int,
        ),
        r is None ==> forall|c: char| !begins_with(t@.skip(q as int), #[trigger] escape_char(c)),
{
    let n = t.len();
    let ghost rest = t@.skip(q as int);
    let c = t[q];
    proof {
        assert(rest[0] == c);
    }
    if c == '"' || (c != '\\' && (c as u32) < 0x20) {
        proof {
            assert forall|x: char| !begins_with(rest, #[trigger] escape_char(x)) by {
                lemma_escape_char_shape(x);
                if begins_with(rest, escape_char(x)) {
                    lemma_begins_with_at(rest, escape_char(x), 0);
                }
            }
        }
        return None;
    }
    if c != '\\' {
        proof {
            assert(escape_char(c) == seq![c]);
            assert(rest =~= escape_char(c) + t@.skip(q + 1));
        }
        return Some((c, q + 1));
    }
    if q + 1 >= n {
        proof {
            assert forall|x: char| !begins_with(rest, #[trigger] escape_char(x)) by {
                lemma_escape_char_shape(x);
                if begins_with(rest, escape_char(x)) {
                    lemma_begins_with_at(rest, escape_char(x), 0);
                }
            }
        }
        return None;
    }
    let d = t[q + 1];
    proof {
        assert(rest[1] == d);
    }
    let short: Option<char> = if d == '"' {
        Some('"')
    } else if d == '\\' {
        Some('\\')
    } else if d == 'b' {
        Some('\x08')
    } else if d == 't' {
        Some('\t')
    } else if d == 'n' {
        Some('\n')
    } else if d == 'f' {
        Some('\x0c')
    } else if d == 'r' {
        Some('\r')
    } else {
        None
    };
    if let Some(x) = short {
        proof {
            assert(escape_char(x) == seq!['\\', d]);
            assert(rest =~= escape_char(x) + t@.skip(q + 2));
        }
        return Some((x, q + 2));
    }
    if d != 'u' || n - q <= 5 {
        proof {
            assert forall|x: char| !begins_with(rest, #[trigger] escape_char(x)) by {
                lemma_escape_char_shape(x);
                if begins_with(rest, escape_char(x)) {
                    lemma_begins_with_at(rest, escape_char(x), 0);
                    lemma_begins_with_at(rest, escape_char(x), 1);
                }
            }
        }
        return None;
    }
    let hi = hex_value(t[q + 4]);
    let lo = hex_value(t[q + 5]);
    let ok = t[q + 2] == '0' && t[q + 3] == '0';
    proof {
        assert(rest[2] == t@[q + 2] && rest[3] == t@[q + 3]);
        assert(rest[4] == t@[q + 4] && rest[5] == t@[q + 5]);
    }
    match (hi, lo) {
        (Some(h), Some(l)) => {
            if ok && h < 2 {
                let v = h * 16 + l;
                if v != 8 && v != 9 && v != 10 && v != 12 && v != 13 {
                    let x = control_char(v);
                    proof {
                        assert((x as u32) as int / 16 == h as int);
                        assert((x as u32) as int % 16 == l as int);
                        assert(escape_char(x) == seq![
                            '\\',
                            'u',
                            '0',
                            '0',
                            hex_digit(h as int),
                            hex_digit(l as int),
                        ]);
                        assert(rest =~= escape_char(x) + t@.skip(q + 6));
                    }
                    return Some((x, q + 6));
                }
            }
        },
        _ => {},
    }
    proof {
        assert forall|x: char| !begins_with(rest, #[trigger] escape_char(x)) by {
            lemma_escape_char_shape(x);
            if begins_with(rest, escape_char(x)) {
                lemma_begins_with_at(rest, escape_char(x), 0);
                lemma_begins_with_at(rest, escape_char(x), 1);
                if escape_char(x).len() > 2 {
                    lemma_begins_with_at(rest, escape_char(x), 2);
                    lemma_begins_with_at(rest, escape_char(x), 3);
                    lemma_begins_with_at(rest, escape_char(x), 4);
                    lemma_begins_with_at(rest, escape_char(x), 5);
                    let a = (x as u32) as int / 16;
                    let b = (x as u32) as int % 16;
                    assert(escape_char(x)[4] == hex_digit(a) && escape_char(x)[5] == hex_digit(b));
                    match hi {
                        Some(h) => crate::json::lemma_hex_digit_injective(h as int, a),
                        None => {},
                    }
                    match lo {
                        Some(l) => crate::json::lemma_hex_digit_injective(l as int, b),
                        None => {},
                    }
                    char_u32_cast(x, x as u32);
                    char_u32_cast('\x08', 8);
                    char_u32_cast('\t', 9);
                    char_u32_cast('\n', 10);
                    char_u32_cast('\x0c', 12);
                    char_u32_cast('\r', 13);
                }
            }
        }
    }
    None
}

/// A text that begins with `p` has `p`'s characters in front.
pub proof fn lemma_begins_with_at(t: Seq<char>, p: Seq<char>, i: int)
    requires
        begins_with(t, p),
        0 <= i < p.len(),
    ensures
        t[i] == p[i],
{
    assert(t.subrange(0, p.len() as int)[i] == t[i]);
}

/// Reads the JSON string that begins at `start`: `Some((s, e))` where the
/// text from `start` to `e` is `s` written as a JSON string; `None` where no
/// JSON string begins there.
pub fn read_json_string(t: &Vec<char>, start: usize) -> (r: Option<(String, usize)>)
    requires
        start <= t@.len(),
    ensures
        r matches Some((s, e)) ==> start < e <= t@.len() && t@.skip(start as int) == json_string(s@)
            + t@.skip(e as int),
        r is None ==> forall|w: Seq<char>, rest: Seq<char>|
            #![trigger (json_string(w) + rest)]
            t@.skip(start as int) != json_string(w) + rest,
        forall|w: Seq<char>, rest: Seq<char>|
            #![trigger (json_string(w) + rest)]
            t@.skip(start as int) == json_string(w) + rest ==> (r matches Some((s, e)) && s@ == w && e
                == start + json_string(w).len()),
        forall|w: Seq<char>, rest: Seq<char>|
            #![trigger (seq!['"'] + w + seq!['"'] + rest)]
            (forall|i: int| 0 <= i < w.len() ==> is_plain_char(#[trigger] w[i])) && t@.skip(start as int)
                == seq!['"'] + w + seq!['"'] + rest ==> (r matches Some((s, e)) && s@ == w && e == start
                + w.len() + 2),
{
    proof {
        assert forall|w: Seq<char>, rest: Seq<char>|
            #![trigger (seq!['"'] + w + seq!['"'] + rest)]
            (forall|i: int| 0 <= i < w.len() ==> is_plain_char(#[trigger] w[i])) && t@.skip(start as int)
                == seq!['"'] + w + seq!['"'] + rest implies t@.skip(start as int) == json_string(w) + rest
            && json_string(w).len() == w.len() + 2 by {
            law_plain_strings_are_written_as_they_stand(w);
            assert(seq!['"'] + w + seq!['"'] + rest =~= json_string(w) + rest);
        }
    }
    read_string_token(t, start)
}

/// Reads the JSON string token that begins at `start`: `Some((s, e))` where the
/// text from `start` to `e` is `s` written as a JSON string; `None` where no
/// JSON string begins there.
fn read_string_token(t: &Vec<char>, start: usize) -> (r: Option<(String, usize)>)
    requires
        start <= t@.len(),
    ensures
        r matches Some((s, e)) ==> start < e <= t@.len() && t@.skip(start as int) == json_string(s@)
            + t@.skip(e as int),
        r is None ==> forall|w: Seq<char>, rest: Seq<char>|
            #![trigger (json_string(w) + rest)]
            t@.skip(start as int) != json_string(w) + rest,
        forall|w: Seq<char>, rest: Seq<char>|
            #![trigger (json_string(w) + rest)]
            t@.skip(start as int) == json_string(w) + rest ==> (r matches Some((s, e)) && s@ == w && e
                == start + json_string(w).len()),
{
    let n = t.len();
    if start >= n || t[start] != '"' {
        proof {
            assert forall|w: Seq<char>, rest: Seq<char>|
                #![trigger (json_string(w) + rest)]
                t@.skip(start as int) != json_string(w) + rest by {
                if t@.skip(start as int) == json_string(w) + rest {
                    assert((json_string(w) + rest)[0] == '"');
                    if start < n {
                        assert(t@.skip(start as int)[0] == t@[start as int]);
                    } else {
                        assert(t@.skip(start as int).len() == 0);
                    }
                }
            }
        }
        return None;
    }
    let mut v = String::new();
    let mut q = start + 1;
    proof {
        assert(t@.skip(start + 1) =~= escaped(v@) + t@.skip(q as int));
        assert forall|w: Seq<char>, rest: Seq<char>|
            #![trigger (json_string(w) + rest)]
            t@.skip(start as int) == json_string(w) + rest implies v@.len() <= w.len() && v@
                == w.take(v@.len() as int) && t@.skip(q as int) == escaped(w.skip(v@.len() as int))
                + (seq!['"'] + rest) by {
            assert(v@ =~= w.take(0));
            assert(w.skip(0) =~= w);
            assert(t@.skip(q as int) =~= (json_string(w) + rest).skip(1));
            assert((json_string(w) + rest).skip(1) =~= escaped(w) + (seq!['"'] + rest));
        }
    }
    while q < n
        invariant
            n == t@.len(),
            start < q <= n,
            t@.skip(start + 1) == escaped(v@) + t@.skip(q as int),
            t@[start as int] == '"',
            forall|w: Seq<char>, rest: Seq<char>|
                #![trigger (json_string(w) + rest)]
                t@.skip(start as int) == json_string(w) + rest ==> v@.len() <= w.len() && v@
                    == w.take(v@.len() as int) && t@.skip(q as int) == escaped(
                    w.skip(v@.len() as int),
                ) + (seq!['"'] + rest),
        decreases n - q,
    {
        if t[q] == '"' {
            proof {
                assert(t@.skip(q as int) =~= seq!['"'] + t@.skip(q + 1));
                assert(t@.skip(start as int) =~= seq!['"'] + t@.skip(start + 1));
                assert(t@.skip(start as int) =~= json_string(v@) + t@.skip(q + 1));
                assert forall|w: Seq<char>, rest: Seq<char>|
                    #![trigger (json_string(w) + rest)]
                    t@.skip(start as int) == json_string(w) + rest implies v@ == w && q + 1 == start
                        + json_string(w).len() by {
                    let k = v@.len() as int;
                    let tail = w.skip(k);
                    if k < w.len() {
                        lemma_escaped_first(tail);
                        lemma_escape_char_shape(w[k]);
                        assert(tail[0] == w[k]);
                        assert(t@.skip(q as int)[0] == t@[q as int]);
                        assert((escaped(tail) + (seq!['"'] + rest))[0] == escape_char(w[k])[0]);
                        assert(false);
                    }
                    assert(v@ =~= w);
                    assert(t@.skip(start as int).len() == t@.len() - start);
                    assert(t@.skip(q + 1).len() == t@.len() - q - 1);
                }
            }
            return Some((v, q + 1));
        }
        let ghost old_v = v@;
        let ghost old_q = q;
        match read_escape(t, q) {
            None => {
                proof {
                    assert forall|w: Seq<char>, rest: Seq<char>|
                        #![trigger (json_string(w) + rest)]
                        t@.skip(start as int) != json_string(w) + rest by {
                        if t@.skip(start as int) == json_string(w) + rest {
                            let k = old_v.len() as int;
                            let tail = w.skip(k);
                            if k == w.len() {
                                assert(tail =~= Seq::<char>::empty());
                                assert(escaped(tail) =~= Seq::<char>::empty());
                                assert(t@.skip(q as int)[0] == t@[q as int]);
                                assert((seq!['"'] + rest)[0] == '"');
                                assert(escaped(tail) + (seq!['"'] + rest) =~= seq!['"'] + rest);
                            } else {
                                lemma_escaped_first(tail);
                                assert(tail[0] == w[k]);
                                assert(tail.skip(1) =~= w.skip(k + 1));
                                let z = escaped(w.skip(k + 1)) + (seq!['"'] + rest);
                                assert(t@.skip(q as int) =~= escape_char(w[k]) + z);
                                assert((escape_char(w[k]) + z).subrange(0, escape_char(w[k]).len() as int) =~= escape_char(w[k]));
                                assert(begins_with(t@.skip(q as int), escape_char(w[k])));
                            }
                        }
                    }
                }
                return None;
            },
            Some((c, e)) => {
                push_char(&mut v, c);
                q = e;
                proof {
                    assert(v@.drop_last() =~= old_v);
                    assert(escaped(v@) == escaped(old_v) + escape_char(c));
                    assert(t@.skip(start + 1) =~= escaped(v@) + t@.skip(q as int));
                    assert forall|w: Seq<char>, rest: Seq<char>|
                        #![trigger (json_string(w) + rest)]
                        t@.skip(start as int) == json_string(w) + rest implies v@.len() <= w.len()
                            && v@ == w.take(v@.len() as int) && t@.skip(q as int) == escaped(
                            w.skip(v@.len() as int),
                        ) + (seq!['"'] + rest) by {
                        let k = old_v.len() as int;
                        let tail = w.skip(k);
                        if k == w.len() {
                            assert(tail =~= Seq::<char>::empty());
                            assert(escaped(tail) =~= Seq::<char>::empty());
                            assert(t@.skip(old_q as int)[0] == t@[old_q as int]);
                            assert(escaped(tail) + (seq!['"'] + rest) =~= seq!['"'] + rest);
                            assert(false);
                        }
                        lemma_escaped_first(tail);
                        assert(tail[0] == w[k]);
                        assert(tail.skip(1) =~= w.skip(k + 1));
                        let z = escaped(w.skip(k + 1)) + (seq!['"'] + rest);
                        assert(t@.skip(old_q as int) =~= escape_char(w[k]) + z);
                        lemma_escape_char_prefix_code(c, w[k], t@.skip(q as int), z);
                        assert(v@ =~= w.take(k + 1));
                    }
                }
            },
        }
    }
    proof {
        assert forall|w: Seq<char>, rest: Seq<char>|
            #![trigger (json_string(w) + rest)]
            t@.skip(start as int) != json_string(w) + rest by {
            if t@.skip(start as int) == json_string(w) + rest {
                assert(t@.skip(q as int).len() == 0);
                assert((escaped(w.skip(v@.len() as int)) + (seq!['"'] + rest)).len() > 0);
            }
        }
    }
    None
}

/// The value of a prefix of decimal digits is at most the value of all of
/// them.
pub proof fn lemma_decimal_value_prefix(s: Seq<char>, i: int)
    requires
        0 <= i <= s.len(),
        forall|j: int| 0 <= j < s.len() ==> is_decimal_digit(#[trigger] s[j]),
    ensures
        0 <= decimal_value(s.take(i)) <= decimal_value(s),
    decreases s.len(),
{
    if s.len() == 0 {
        assert(s.take(i) =~= s);
    } else {
        let dl = s.drop_last();
        let k = if i < s.len() { i } else { s.len() - 1 };
        lemma_decimal_value_prefix(dl, k);
        assert(dl.take(dl.len() as int) =~= dl);
        lemma_decimal_value_prefix(dl, dl.len() as int);
        assert(is_decimal_digit(s[s.len() - 1]));
        assert(decimal_value(s) == decimal_value(dl) * 10 + digit_value(s.last()));
        if i < s.len() {
            assert(dl.take(i) =~= s.take(i));
        } else {
            assert(s.take(i) =~= s);
        }
    }
}

/// Whether `c` is a decimal digit.
fn is_digit(c: char) -> (r: bool)
    ensures
        r == is_decimal_digit(c),
{
    let n = c as u32;
    0x30 <= n && n <= 0x39
}

/// Reads the unsigned integer written in decimal, without leading zeros, at
/// `start`: `Some((m, e))` where the text from `start` to `e` is `m` in
/// decimal and what follows is no digit; `None` where no such number is
/// written there.
pub fn read_decimal(t: &Vec<char>, start: usize) -> (r: Option<(u64, usize)>)
    requires
        start <= t@.len(),
    ensures
        r matches Some((m, e)) ==> start < e <= t@.len() && t@.skip(start as int) == decimal(m as nat)
            + t@.skip(e as int),
        forall|m: u64, rest: Seq<char>|
            #![trigger (decimal(m as nat) + rest)]
            rest.len() > 0 && !is_decimal_digit(rest[0]) && t@.skip(start as int) == decimal(m as nat)
                + rest ==> r == Some((m, (start + decimal(m as nat).len()) as usize)),
{
    let n = t.len();
    let mut q = start;
    let mut acc: u64 = 0;
    let mut digits = String::new();
    proof {
        assert(digits@ =~= t@.subrange(start as int, q as int));
    }
    while q < n && is_digit(t[q])
        invariant
            n == t@.len(),
            start <= q <= n,
            digits@ == t@.subrange(start as int, q as int),
            forall|j: int| 0 <= j < digits@.len() ==> is_decimal_digit(#[trigger] digits@[j]),
            acc == decimal_value(digits@),
            forall|m: u64, rest: Seq<char>|
                #![trigger (decimal(m as nat) + rest)]
                rest.len() > 0 && !is_decimal_digit(rest[0]) && t@.skip(start as int) == decimal(
                    m as nat,
                ) + rest ==> digits@ == decimal(m as nat).take(digits@.len() as int) && digits@.len()
                    <= decimal(m as nat).len(),
        decreases n - q,
    {
        let c = t[q];
        let d = (c as u32 - 0x30) as u64;
        let ghost next = digits@.push(c);
        proof {
            assert(next.drop_last() =~= digits@);
            assert(decimal_value(next) == acc * 10 + d);
            assert forall|m: u64, rest: Seq<char>|
                #![trigger (decimal(m as nat) + rest)]
                rest.len() > 0 && !is_decimal_digit(rest[0]) && t@.skip(start as int) == decimal(
                    m as nat,
                ) + rest implies next == decimal(m as nat).take(next.len() as int) && next.len()
                    <= decimal(m as nat).len() && decimal_value(next) <= m by {
                let dm = decimal(m as nat);
                lemma_decimal_reads_back(m as nat);
                let k = digits@.len() as int;
                assert(t@.skip(start as int)[k] == c);
                if k == dm.len() {
                    assert((dm + rest)[k] == rest[0]);
                    assert(false);
                }
                assert((dm + rest)[k] == dm[k]);
                assert(next =~= dm.take(k + 1));
                lemma_decimal_value_prefix(dm, k + 1);
            }
        }
        let times_ten = match acc.checked_mul(10) {
            Some(x) => x,
            None => {
                proof {
                    assert forall|m: u64, rest: Seq<char>|
                        #![trigger (decimal(m as nat) + rest)]
                        rest.len() > 0 && !is_decimal_digit(rest[0]) implies t@.skip(start as int)
                            != decimal(m as nat) + rest by {
                        if t@.skip(start as int) == decimal(m as nat) + rest {
                            assert(decimal_value(next) <= m);
                        }
                    }
                }
                return None;
            },
        };
        acc = match times_ten.checked_add(d) {
            Some(x) => x,
            None => {
                proof {
                    assert forall|m: u64, rest: Seq<char>|
                        #![trigger (decimal(m as nat) + rest)]
                        rest.len() > 0 && !is_decimal_digit(rest[0]) implies t@.skip(start as int)
                            != decimal(m as nat) + rest by {
                        if t@.skip(start as int) == decimal(m as nat) + rest {
                            assert(decimal_value(next) <= m);
                        }
                    }
                }
                return None;
            },
        };
        push_char(&mut digits, c);
        q += 1;
        proof {
            assert(digits@ =~= t@.subrange(start as int, q as int));
        }
    }
    let text = json_number_of(acc).unwrap();
    if q > start && digits == text {
        proof {
            assert(t@.skip(start as int) =~= digits@ + t@.skip(q as int));
            assert forall|m: u64, rest: Seq<char>|
                #![trigger (decimal(m as nat) + rest)]
                rest.len() > 0 && !is_decimal_digit(rest[0]) && t@.skip(start as int) == decimal(
                    m as nat,
                ) + rest implies m == acc && q == start + decimal(m as nat).len() by {
                let dm = decimal(m as nat);
                lemma_decimal_reads_back(m as nat);
                let k = digits@.len() as int;
                if k < dm.len() {
                    assert(t@.skip(start as int)[k] == dm[k]);
                    assert(t@[q as int] == dm[k]);
                    assert(false);
                }
                assert(digits@ =~= dm);
            }
        }
        return Some((acc, q));
    }
    proof {
        assert forall|m: u64, rest: Seq<char>|
            #![trigger (decimal(m as nat) + rest)]
            rest.len() > 0 && !is_decimal_digit(rest[0]) implies t@.skip(start as int) != decimal(
                m as nat,
            ) + rest by {
            if t@.skip(start as int) == decimal(m as nat) + rest {
                let dm = decimal(m as nat);
                lemma_decimal_reads_back(m as nat);
                let k = digits@.len() as int;
                if k < dm.len() {
                    assert(t@.skip(start as int)[k] == dm[k]);
                    assert(t@[q as int] == dm[k]);
                    assert(false);
                }
                assert(digits@ =~= dm);
            }
        }
    }
    None
}

/// Whether the text from `pos` on begins with `lit`.
pub fn reads_text(t: &Vec<char>, pos: usize, lit: &str) -> (r: bool)
    requires
        pos <= t@.len(),
    ensures
        r == begins_with(t@.skip(pos as int), lit@),
{
    let m = lit.unicode_len();
    let n = t.len();
    if n - pos < m {
        return false;
    }
    let mut i: usize = 0;
    while i < m
        invariant
            m == lit@.len(),
            n == t@.len(),
            pos + m <= n,
            0 <= i <= m,
            forall|j: int| 0 <= j < i ==> t@[pos + j] == lit@[j],
        decreases m - i,
    {
        if t[pos + i] != lit.get_char(i) {
            proof {
                assert(t@.skip(pos as int).subrange(0, m as int)[i as int] == t@[pos + i]);
            }
            return false;
        }
        i += 1;
    }
    proof {
        assert(t@.skip(pos as int).subrange(0, m as int) =~= lit@);
    }
    true
}

/// A text begins with `p` exactly when it is `p` followed by the rest.
pub proof fn lemma_begins_with_split(s: Seq<char>, pos: int, p: Seq<char>)
    requires
        0 <= pos <= s.len(),
    ensures
        begins_with(s.skip(pos), p) ==> s.skip(pos) == p + s.skip(pos + p.len()),
        forall|x: Seq<char>|
            s.skip(pos) == #[trigger] (p + x) ==> begins_with(s.skip(pos), p) && s.skip(pos + p.len())
                == x,
{
    if begins_with(s.skip(pos), p) {
        assert(s.skip(pos) =~= p + s.skip(pos + p.len()));
    }
    assert forall|x: Seq<char>| s.skip(pos) == #[trigger] (p + x) implies begins_with(s.skip(pos), p)
        && s.skip(pos + p.len()) == x by {
        assert(s.skip(pos).subrange(0, p.len() as int) =~= p);
        assert(s.skip(pos + p.len()) =~= (p + x).skip(p.len() as int));
        assert((p + x).skip(p.len() as int) =~= x);
    }
}

} // verus!
