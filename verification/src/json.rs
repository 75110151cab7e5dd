//! JSON text as `serde_json` writes it: strings with their escapes, and
//! unsigned integers in decimal; and what can be read back from it.

use vstd::prelude::*;

verus! {

/// The lower-case hexadecimal digit of `d` (below 16).
pub open spec fn hex_digit(d: int) -> char {
    if d == 0 {
        '0'
    } else if d == 1 {
        '1'
    } else if d == 2 {
        '2'
    } else if d == 3 {
        '3'
    } else if d == 4 {
        '4'
    } else if d == 5 {
        '5'
    } else if d == 6 {
        '6'
    } else if d == 7 {
        '7'
    } else if d == 8 {
        '8'
    } else if d == 9 {
        '9'
    } else if d == 10 {
        'a'
    } else if d == 11 {
        'b'
    } else if d == 12 {
        'c'
    } else if d == 13 {
        'd'
    } else if d == 14 {
        'e'
    } else {
        'f'
    }
}

/// How one character is written inside a JSON string: a quote and a
/// backslash get a backslash in front, the control characters below U+0020
/// their short escape (`\b`, `\t`, `\n`, `\f`, `\r`) or `\u00XX`, every other
/// character stands for itself.
pub open spec fn escape_char(c: char) -> Seq<char> {
    if c == '"' {
        seq!['\\', '"']
    } else if c == '\\' {
        seq!['\\', '\\']
    } else if c == '\x08' {
        seq!['\\', 'b']
    } else if c == '\t' {
        seq!['\\', 't']
    } else if c == '\n' {
        seq!['\\', 'n']
    } else if c == '\x0c' {
        seq!['\\', 'f']
    } else if c == '\r' {
        seq!['\\', 'r']
    } else if (c as u32) < 0x20 {
        seq!['\\', 'u', '0', '0', hex_digit((c as u32) as int / 16), hex_digit((c as u32) as int % 16)]
    } else {
        seq![c]
    }
}

/// The characters of `s`, each written as inside a JSON string.
pub open spec fn escaped(s: Seq<char>) -> Seq<char>
    decreases s.len(),
{
    if s.len() == 0 {
        Seq::empty()
    } else {
        escaped(s.drop_last()) + escape_char(s.last())
    }
}

/// `s` as a JSON string: its escaped characters between double quotes.
pub open spec fn json_string(s: Seq<char>) -> Seq<char> {
    seq!['"'] + escaped(s) + seq!['"']
}

/// The decimal digit of `d` (below 10).
pub open spec fn decimal_digit(d: int) -> char {
    hex_digit(d)
}

/// `n` in decimal, without leading zeros.
pub open spec fn decimal(n: nat) -> Seq<char>
    decreases n,
{
    if n < 10 {
        seq![decimal_digit(n as int)]
    } else {
        decimal(n / 10) + seq![decimal_digit((n % 10) as int)]
    }
}

/// Appends `c` to `s` with `String::push`; the contract says what its
/// documentation says: the character is added at the end.
#[verifier::external_body]
pub(crate) fn push_char(s: &mut String, c: char)
    ensures
        final(s)@ == old(s)@.push(c),
{
    s.push(c)
}

/// Writes `s` as a JSON string with `serde_json::to_string`. The contract
/// states what its source does for a string: the escapes of its `ESCAPE`
/// table (`format_escaped_str`) between double quotes, written into a vector,
/// which cannot fail.
#[verifier::external_body]
pub(crate) fn json_string_of(s: &str) -> (r: Result<String, serde_json::Error>)
    ensures
        r is Ok,
        r matches Ok(t) ==> t@ == json_string(s@),
{
    serde_json::to_string(s)
}

/// Writes `n` as a JSON number with `serde_json::to_string`. The contract
/// states what its source does for a `u64`: the decimal digits without
/// leading zeros (`itoa`), written into a vector, which cannot fail.
#[verifier::external_body]
pub(crate) fn json_number_of(n: u64) -> (r: Result<String, serde_json::Error>)
    ensures
        r is Ok,
        r matches Ok(t) ==> t@ == decimal(n as nat),
{
    serde_json::to_string(&n)
}

/// The characters that a character is written as in a JSON string begin with
/// a backslash, or are the character itself when it needs no escape; they
/// never begin with a double quote.
pub proof fn lemma_escape_char_shape(c: char)
    ensures
        escape_char(c).len() >= 1,
        escape_char(c)[0] != '"',
        escape_char(c)[0] == '\\' || (escape_char(c) == seq![c] && c != '\\' && c != '"'),
{
}

/// The lower-case hexadecimal digits of distinct values below 16 differ.
pub proof fn lemma_hex_digit_injective(a: int, b: int)
    requires
        0 <= a < 16,
        0 <= b < 16,
        hex_digit(a) == hex_digit(b),
    ensures
        a == b,
{
}

/// Two characters written as in a JSON string, each followed by more text,
/// give the same text only for the same character and the same rest: no
/// escape is the beginning of another.
pub proof fn lemma_escape_char_prefix_code(c: char, d: char, x: Seq<char>, y: Seq<char>)
    requires
        escape_char(c) + x == escape_char(d) + y,
    ensures
        c == d,
        x == y,
{
    let ec = escape_char(c);
    let ed = escape_char(d);
    let l = ec + x;
    lemma_escape_char_shape(c);
    lemma_escape_char_shape(d);
    assert(l[0] == ec[0]);
    assert(l[0] == ed[0]);
    if ec[0] != '\\' {
        assert(ed[0] != '\\');
        assert(c == d);
    } else {
        assert(l[1] == ec[1]);
        assert(l[1] == ed[1]);
        if ec[1] == 'u' {
            assert(l[4] == ec[4] && l[4] == ed[4]);
            assert(l[5] == ec[5] && l[5] == ed[5]);
            lemma_hex_digit_injective((c as u32) as int / 16, (d as u32) as int / 16);
            lemma_hex_digit_injective((c as u32) as int % 16, (d as u32) as int % 16);
            assert((c as u32) == (d as u32));
        }
        assert(c == d);
    }
    assert(x =~= l.skip(ec.len() as int));
    assert(y =~= l.skip(ed.len() as int));
}

/// Escaping distributes over concatenation.
pub proof fn lemma_escaped_concat(a: Seq<char>, b: Seq<char>)
    ensures
        escaped(a + b) == escaped(a) + escaped(b),
    decreases b.len(),
{
    if b.len() == 0 {
        assert(a + b =~= a);
        assert(escaped(b) =~= Seq::<char>::empty());
        assert(escaped(a) + escaped(b) =~= escaped(a));
    } else {
        lemma_escaped_concat(a, b.drop_last());
        assert((a + b).drop_last() =~= a + b.drop_last());
        assert((a + b).last() == b.last());
        assert(escaped(a + b) == escaped(a + b.drop_last()) + escape_char(b.last()));
        assert(escaped(a) + escaped(b) =~= escaped(a) + escaped(b.drop_last()) + escape_char(
            b.last(),
        ));
    }
}

/// Escaping a string that begins with `c`.
pub proof fn lemma_escaped_first(s: Seq<char>)
    requires
        s.len() > 0,
    ensures
        escaped(s) == escape_char(s[0]) + escaped(s.skip(1)),
{
    assert(s =~= seq![s[0]] + s.skip(1));
    lemma_escaped_concat(seq![s[0]], s.skip(1));
    let one = seq![s[0]];
    assert(one.drop_last() =~= Seq::<char>::empty());
    assert(one.last() == s[0]);
    assert(escaped(one.drop_last()) =~= Seq::<char>::empty());
    assert(escaped(one) == escaped(one.drop_last()) + escape_char(one.last()));
    assert(escaped(one) =~= escape_char(s[0]));
}

/// The closing quote of a JSON string is the first double quote that is not
/// part of an escape: a JSON string followed by more text determines both
/// the string and the text.
pub proof fn lemma_json_string_prefix_code(a: Seq<char>, b: Seq<char>, x: Seq<char>, y: Seq<char>)
    requires
        json_string(a) + x == json_string(b) + y,
    ensures
        a == b,
        x == y,
{
    let l = json_string(a) + x;
    assert(l.skip(1) =~= escaped(a) + (seq!['"'] + x));
    assert(l.skip(1) =~= escaped(b) + (seq!['"'] + y));
    lemma_escaped_prefix_code(a, b, seq!['"'] + x, seq!['"'] + y);
    assert(x =~= (seq!['"'] + x).skip(1));
    assert(y =~= (seq!['"'] + y).skip(1));
}

/// Escaped strings, each followed by text that begins with a double quote,
/// give the same text only for the same strings and the same rest.
pub proof fn lemma_escaped_prefix_code(a: Seq<char>, b: Seq<char>, x: Seq<char>, y: Seq<char>)
    requires
        escaped(a) + x == escaped(b) + y,
        x.len() > 0 && x[0] == '"',
        y.len() > 0 && y[0] == '"',
    ensures
        a == b,
        x == y,
    decreases a.len(),
{
    let l = escaped(a) + x;
    if a.len() == 0 {
        assert(escaped(a) =~= Seq::<char>::empty());
        assert(l =~= x);
        if b.len() > 0 {
            lemma_escaped_first(b);
            lemma_escape_char_shape(b[0]);
            assert(l[0] == escape_char(b[0])[0]);
            assert(false);
        }
        assert(escaped(b) =~= Seq::<char>::empty());
        assert(a =~= b);
        assert(l =~= y);
    } else if b.len() == 0 {
        assert(escaped(b) =~= Seq::<char>::empty());
        assert(l =~= y);
        lemma_escaped_first(a);
        lemma_escape_char_shape(a[0]);
        assert(l[0] == escape_char(a[0])[0]);
        assert(false);
    } else {
        lemma_escaped_first(a);
        lemma_escaped_first(b);
        assert(l =~= escape_char(a[0]) + (escaped(a.skip(1)) + x));
        assert(escaped(b) + y =~= escape_char(b[0]) + (escaped(b.skip(1)) + y));
        lemma_escape_char_prefix_code(a[0], b[0], escaped(a.skip(1)) + x, escaped(b.skip(1)) + y);
        lemma_escaped_prefix_code(a.skip(1), b.skip(1), x, y);
        assert(a =~= seq![a[0]] + a.skip(1));
        assert(b =~= seq![b[0]] + b.skip(1));
    }
}

/// A decimal digit.
pub open spec fn is_decimal_digit(c: char) -> bool {
    '0' <= c <= '9'
}

/// The value of a decimal digit.
pub open spec fn digit_value(c: char) -> int {
    (c as u32) as int - ('0' as u32) as int
}

/// The value of a string of decimal digits.
pub open spec fn decimal_value(s: Seq<char>) -> int
    decreases s.len(),
{
    if s.len() == 0 {
        0
    } else {
        decimal_value(s.drop_last()) * 10 + digit_value(s.last())
    }
}

/// A decimal digit reads back as its value.
pub proof fn lemma_digit_value(d: int)
    requires
        0 <= d < 10,
    ensures
        digit_value(decimal_digit(d)) == d,
        is_decimal_digit(decimal_digit(d)),
{
}

/// `n` in decimal consists of digits and reads back as `n`.
pub proof fn lemma_decimal_reads_back(n: nat)
    ensures
        decimal(n).len() >= 1,
        forall|i: int| 0 <= i < decimal(n).len() ==> is_decimal_digit(#[trigger] decimal(n)[i]),
        decimal_value(decimal(n)) == n,
    decreases n,
{
    if n < 10 {
        lemma_digit_value(n as int);
        let d = decimal(n);
        assert(d.drop_last() =~= Seq::<char>::empty());
        assert(decimal_value(d) == decimal_value(d.drop_last()) * 10 + digit_value(d.last()));
    } else {
        lemma_decimal_reads_back(n / 10);
        lemma_digit_value((n % 10) as int);
        let d = decimal(n);
        assert(decimal_value(d) == decimal_value(d.drop_last()) * 10 + digit_value(d.last()));
        assert((n / 10) * 10 + n % 10 == n) by (nonlinear_arith);
        assert(d.drop_last() =~= decimal(n / 10));
        assert(d.last() == decimal_digit((n % 10) as int));
        assert forall|i: int| 0 <= i < d.len() implies is_decimal_digit(#[trigger] d[i]) by {
            if i < d.len() - 1 {
                assert(d[i] == decimal(n / 10)[i]);
            }
        }
    }
}

/// Decimals, each followed by text that begins with something other than a
/// digit, give the same text only for the same numbers and the same rest.
pub proof fn lemma_decimal_prefix_code(a: nat, b: nat, x: Seq<char>, y: Seq<char>)
    requires
        decimal(a) + x == decimal(b) + y,
        x.len() > 0 && !is_decimal_digit(x[0]),
        y.len() > 0 && !is_decimal_digit(y[0]),
    ensures
        a == b,
        x == y,
{
    lemma_decimal_reads_back(a);
    lemma_decimal_reads_back(b);
    let da = decimal(a);
    let db = decimal(b);
    let l = da + x;
    if da.len() < db.len() {
        assert(l[da.len() as int] == x[0]);
        assert(l[da.len() as int] == db[da.len() as int]);
        assert(false);
    }
    if db.len() < da.len() {
        assert(l[db.len() as int] == da[db.len() as int]);
        assert((db + y)[db.len() as int] == y[0]);
        assert(false);
    }
    assert(da =~= l.subrange(0, da.len() as int));
    assert(db =~= (db + y).subrange(0, db.len() as int));
    assert(x =~= l.skip(da.len() as int));
    assert(y =~= (db + y).skip(db.len() as int));
}

/// A character that JSON text writes as itself inside a string: neither a
/// double quote, nor a backslash, nor a control character below U+0020.
pub open spec fn is_plain_char(c: char) -> bool {
    c != '"' && c != '\\' && (c as u32) >= 0x20
}

/// A string is written as a JSON string by putting it between double quotes
/// as it stands, when none of its characters needs an escape; each of the
/// others is written as a backslash and a letter or as `\u00` and two
/// lower-case hexadecimal digits, never as itself.
pub proof fn law_plain_strings_are_written_as_they_stand(s: Seq<char>)
    ensures
        (forall|i: int| 0 <= i < s.len() ==> is_plain_char(#[trigger] s[i])) ==> json_string(s)
            == seq!['"'] + s + seq!['"'],
        forall|c: char| is_plain_char(c) ==> #[trigger] escape_char(c) == seq![c],
        forall|c: char| !is_plain_char(c) ==> (#[trigger] escape_char(c)).len() >= 2 && escape_char(c)[0]
            == '\\',
        escape_char('"') == seq!['\\', '"'],
        escape_char('\\') == seq!['\\', '\\'],
        escape_char('\n') == seq!['\\', 'n'],
{
    if forall|i: int| 0 <= i < s.len() ==> is_plain_char(#[trigger] s[i]) {
        lemma_plain_escaped(s);
    }
}

/// Characters that need no escape are written as they stand.
proof fn lemma_plain_escaped(s: Seq<char>)
    requires
        forall|i: int| 0 <= i < s.len() ==> is_plain_char(#[trigger] s[i]),
    ensures
        escaped(s) == s,
    decreases s.len(),
{
    if s.len() > 0 {
        let d = s.drop_last();
        assert forall|i: int| 0 <= i < d.len() implies is_plain_char(#[trigger] d[i]) by {
            assert(d[i] == s[i]);
        }
        lemma_plain_escaped(d);
        assert(is_plain_char(s[s.len() - 1]));
        assert(escape_char(s.last()) == seq![s.last()]);
        assert(d + seq![s.last()] =~= s);
    }
}

} // verus!
