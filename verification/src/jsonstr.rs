//! JSON string escaping and its strict parser, with a proved round trip.
//!
//! A record's strings are stored as JSON strings: `"` and `\` are escaped
//! with a backslash, control characters as `\u00` and two lowercase hex
//! digits, and every other character stands for itself.

use vstd::prelude::*;

verus! {

/// The lowercase hex digit for a value below 16.
pub open spec fn hex_digit(n: int) -> char {
    if n == 0 {
        '0'
    } else if n == 1 {
        '1'
    } else if n == 2 {
        '2'
    } else if n == 3 {
        '3'
    } else if n == 4 {
        '4'
    } else if n == 5 {
        '5'
    } else if n == 6 {
        '6'
    } else if n == 7 {
        '7'
    } else if n == 8 {
        '8'
    } else if n == 9 {
        '9'
    } else if n == 10 {
        'a'
    } else if n == 11 {
        'b'
    } else if n == 12 {
        'c'
    } else if n == 13 {
        'd'
    } else if n == 14 {
        'e'
    } else {
        'f'
    }
}

/// The value of a lowercase hex digit.
pub open spec fn hex_val(c: char) -> Option<int> {
    if 48 <= c as int && c as int <= 57 {
        Some(c as int - 48)
    } else if 97 <= c as int && c as int <= 102 {
        Some(c as int - 87)
    } else {
        None
    }
}

/// The control character with the given code below 32.
pub open spec fn char_of_low(n: int) -> char {
    if n == 0 {
        '\u{0}'
    } else if n == 1 {
        '\u{1}'
    } else if n == 2 {
        '\u{2}'
    } else if n == 3 {
        '\u{3}'
    } else if n == 4 {
        '\u{4}'
    } else if n == 5 {
        '\u{5}'
    } else if n == 6 {
        '\u{6}'
    } else if n == 7 {
        '\u{7}'
    } else if n == 8 {
        '\u{8}'
    } else if n == 9 {
        '\u{9}'
    } else if n == 10 {
        '\u{a}'
    } else if n == 11 {
        '\u{b}'
    } else if n == 12 {
        '\u{c}'
    } else if n == 13 {
        '\u{d}'
    } else if n == 14 {
        '\u{e}'
    } else if n == 15 {
        '\u{f}'
    } else if n == 16 {
        '\u{10}'
    } else if n == 17 {
        '\u{11}'
    } else if n == 18 {
        '\u{12}'
    } else if n == 19 {
        '\u{13}'
    } else if n == 20 {
        '\u{14}'
    } else if n == 21 {
        '\u{15}'
    } else if n == 22 {
        '\u{16}'
    } else if n == 23 {
        '\u{17}'
    } else if n == 24 {
        '\u{18}'
    } else if n == 25 {
        '\u{19}'
    } else if n == 26 {
        '\u{1a}'
    } else if n == 27 {
        '\u{1b}'
    } else if n == 28 {
        '\u{1c}'
    } else if n == 29 {
        '\u{1d}'
    } else if n == 30 {
        '\u{1e}'
    } else {
        '\u{1f}'
    }
}

pub open spec fn is_control(c: char) -> bool {
    0 <= c as int && (c as int) < 32
}

/// The escape sequence for one character.
pub open spec fn esc_char(c: char) -> Seq<char> {
    if c == '"' {
        seq!['\\', '"']
    } else if c == '\\' {
        seq!['\\', '\\']
    } else if is_control(c) {
        seq!['\\', 'u', '0', '0', hex_digit(c as int / 16), hex_digit(c as int % 16)]
    } else {
        seq![c]
    }
}

/// The escaped form of a string.
pub open spec fn esc(s: Seq<char>) -> Seq<char>
    decreases s.len(),
{
    if s.len() == 0 {
        Seq::empty()
    } else {
        esc_char(s[0]) + esc(s.drop_first())
    }
}

/// The JSON string for a character sequence: quoted and escaped.
pub open spec fn json_str(s: Seq<char>) -> Seq<char> {
    seq!['"'] + esc(s) + seq!['"']
}

pub proof fn lemma_esc_snoc(s: Seq<char>, c: char)
    ensures
        esc(s.push(c)) == esc(s) + esc_char(c),
    decreases s.len(),
{
    if s.len() == 0 {
        assert(s.push(c).drop_first() =~= Seq::<char>::empty());
        assert(s.push(c)[0] == c);
        assert(esc(s) == Seq::<char>::empty());
        assert(esc(s.push(c).drop_first()) == Seq::<char>::empty());
        assert(esc(s.push(c)) =~= esc(s) + esc_char(c));
    } else {
        assert(s.push(c).drop_first() =~= s.drop_first().push(c));
        lemma_esc_snoc(s.drop_first(), c);
        assert(s.push(c)[0] == s[0]);
        assert(esc(s.push(c)) =~= esc(s) + esc_char(c));
    }
}

/// The strict parser for a JSON string body after the opening quote: the
/// decoded string and the rest after the closing quote.
pub open spec fn take_body(s: Seq<char>) -> Option<(Seq<char>, Seq<char>)>
    decreases s.len(),
{
    if s.len() == 0 {
        None
    } else if s[0] == '"' {
        Some((Seq::empty(), s.drop_first()))
    } else if s[0] == '\\' {
        if s.len() >= 2 && (s[1] == '"' || s[1] == '\\') {
            match take_body(s.subrange(2, s.len() as int)) {
                Some(p) => Some((seq![s[1]] + p.0, p.1)),
                None => None,
            }
        } else if s.len() >= 6 && s[1] == 'u' && s[2] == '0' && s[3] == '0' {
            match (hex_val(s[4]), hex_val(s[5])) {
                (Some(h1), Some(h2)) => if 16 * h1 + h2 < 32 {
                    match take_body(s.subrange(6, s.len() as int)) {
                        Some(p) => Some((seq![char_of_low(16 * h1 + h2)] + p.0, p.1)),
                        None => None,
                    }
                } else {
                    None
                },
                _ => None,
            }
        } else {
            None
        }
    } else if is_control(s[0]) {
        None
    } else {
        match take_body(s.drop_first()) {
            Some(p) => Some((seq![s[0]] + p.0, p.1)),
            None => None,
        }
    }
}

/// The strict parser for a whole JSON string: opening quote, body, rest.
pub open spec fn take_jstr(s: Seq<char>) -> Option<(Seq<char>, Seq<char>)> {
    if s.len() >= 1 && s[0] == '"' {
        take_body(s.drop_first())
    } else {
        None
    }
}

/// Parsing consumes at least the closing quote.
pub proof fn lemma_take_body_shrinks(s: Seq<char>)
    ensures
        take_body(s) matches Some(p) ==> p.1.len() < s.len(),
    decreases s.len(),
{
    if s.len() == 0 {
    } else if s[0] == '"' {
    } else if s[0] == '\\' {
        if s.len() >= 2 && (s[1] == '"' || s[1] == '\\') {
            lemma_take_body_shrinks(s.subrange(2, s.len() as int));
        } else if s.len() >= 6 && s[1] == 'u' && s[2] == '0' && s[3] == '0' {
            lemma_take_body_shrinks(s.subrange(6, s.len() as int));
        }
    } else {
        lemma_take_body_shrinks(s.drop_first());
    }
}

/// The hex digit of a value below 16 reads back as that value.
pub proof fn lemma_hex_round(n: int)
    requires
        0 <= n < 16,
    ensures
        hex_val(hex_digit(n)) == Some(n),
{
}

/// A control character is recovered from its code.
pub proof fn lemma_char_of_low_id(c: char)
    requires
        is_control(c),
    ensures
        char_of_low(c as int) == c,
{
}

/// Round trip: parsing the escaped form of any string, followed by the
/// closing quote and anything after it, yields exactly that string and rest.
#[verifier::rlimit(50)]
pub proof fn lemma_take_body_round(v: Seq<char>, rest: Seq<char>)
    ensures
        take_body(esc(v) + seq!['"'] + rest) == Some((v, rest)),
    decreases v.len(),
{
    let s = esc(v) + seq!['"'] + rest;
    if v.len() == 0 {
        assert(esc(v) =~= Seq::<char>::empty());
        assert(s =~= seq!['"'] + rest);
        assert(s[0] == '"');
        assert(s.drop_first() =~= rest);
    } else {
        let c = v[0];
        let v1 = v.drop_first();
        lemma_take_body_round(v1, rest);
        let s1 = esc(v1) + seq!['"'] + rest;
        assert(esc(v) == esc_char(c) + esc(v1));
        if c == '"' || c == '\\' {
            assert(s =~= seq!['\\', c] + s1);
            assert(s[0] == '\\' && s[1] == c);
            assert(s.subrange(2, s.len() as int) =~= s1);
            assert(seq![s[1]] + v1 =~= v);
        } else if is_control(c) {
            let n = c as int;
            assert(0 <= n < 32);
            lemma_hex_round(n / 16);
            lemma_hex_round(n % 16);
            lemma_char_of_low_id(c);
            let e = seq!['\\', 'u', '0', '0', hex_digit(n / 16), hex_digit(n % 16)];
            assert(esc_char(c) == e);
            assert(s =~= e + s1);
            assert(s[0] == '\\' && s[1] == 'u' && s[2] == '0' && s[3] == '0');
            assert(s[4] == hex_digit(n / 16) && s[5] == hex_digit(n % 16));
            assert(hex_val(s[4]) == Some(n / 16) && hex_val(s[5]) == Some(n % 16));
            assert(16 * (n / 16) + (n % 16) == n);
            assert(s.subrange(6, s.len() as int) =~= s1);
            assert(seq![char_of_low(n)] + v1 =~= v);
        } else {
            assert(s =~= seq![c] + s1);
            assert(s[0] == c);
            assert(s.drop_first() =~= s1);
            assert(seq![s[0]] + v1 =~= v);
        }
    }
}

/// Round trip at the JSON string level.
pub proof fn lemma_take_jstr_round(v: Seq<char>, rest: Seq<char>)
    ensures
        take_jstr(json_str(v) + rest) == Some((v, rest)),
{
    let s = json_str(v) + rest;
    assert(s[0] == '"');
    assert(s.drop_first() =~= esc(v) + seq!['"'] + rest);
    lemma_take_body_round(v, rest);
}

} // verus!
