//! Operations on text that the standard library provides.

use vstd::prelude::*;

verus! {

/// Whether two string slices hold the same characters.
///
/// Calls `==` of `str`, which compares the contents of the two slices; the
/// contract says that this is equality of the character sequences.
#[verifier::external_body]
pub(crate) fn str_eq(a: &str, b: &str) -> (r: bool)
    ensures
        r == (a@ == b@),
{
    a == b
}

/// The first `n` of `parts` with `separator` between each two.
pub open spec fn joined(parts: Seq<Seq<char>>, n: nat, separator: Seq<char>) -> Seq<char>
    decreases n,
{
    if n == 0 || n > parts.len() {
        Seq::empty()
    } else if n == 1 {
        parts[0]
    } else {
        joined(parts, (n - 1) as nat, separator) + separator + parts[n - 1]
    }
}

/// `parts` with `separator` between each two, in square brackets.
pub open spec fn bracketed(parts: Seq<Seq<char>>, separator: Seq<char>) -> Seq<char> {
    seq!['['] + joined(parts, parts.len(), separator) + seq![']']
}

/// `parts` with `separator` between each two, in square brackets.
pub fn join_bracketed(parts: &Vec<String>, separator: &str) -> (r: String)
    ensures
        r@ == bracketed(parts.deep_view(), separator@),
{
    proof {
        reveal_strlit("[");
        reveal_strlit("]");
    }
    let ghost texts = parts.deep_view();
    let mut text = String::new();
    let mut i: usize = 0;
    while i < parts.len()
        invariant
            i <= parts.len(),
            texts == parts.deep_view(),
            text@ == joined(texts, i as nat, separator@),
        decreases parts.len() - i,
    {
        assert(texts[i as int] == parts[i as int]@);
        if i > 0 {
            text = text.concat(separator);
        }
        text = text.concat(parts[i].as_str());
        proof {
            if i == 0 {
                assert(text@ =~= texts[0]);
            }
        }
        i += 1;
    }
    let r = "[".to_string().concat(text.as_str()).concat("]");
    assert(r@ =~= bracketed(texts, separator@));
    r
}

/// Whether a character is numeric in the sense of Unicode: a member of
/// one of the general categories `Nd`, `Nl` and `No`.
pub uninterp spec fn numeric(c: char) -> bool;

/// Whether a character is white space in the sense of Unicode: a character
/// with the property `White_Space`.
pub uninterp spec fn white_space(c: char) -> bool;

/// Whether a character is numeric.
///
/// Calls `char::is_numeric`, which tells whether the character belongs to
/// one of the general categories for numbers of the Unicode character
/// database. The contract gives the answer a name.
#[verifier::external_body]
pub(crate) fn is_numeric(c: char) -> (r: bool)
    ensures
        r == numeric(c),
{
    c.is_numeric()
}

/// Whether a character is white space.
///
/// Calls `char::is_whitespace`, which tells whether the character has the
/// property `White_Space` of the Unicode character database. The contract
/// gives the answer a name.
#[verifier::external_body]
pub(crate) fn is_whitespace(c: char) -> (r: bool)
    ensures
        r == white_space(c),
{
    c.is_whitespace()
}

/// Puts one character at the end of a string.
///
/// Calls `String::push`, which appends the given character to the end of
/// the string; the contract says that the string's characters are then the
/// ones it had, followed by that character.
#[verifier::external_body]
pub(crate) fn push_char(s: &mut String, c: char)
    ensures
        final(s)@ == old(s)@.push(c),
{
    s.push(c)
}

/// The characters of a string.
pub fn chars_of(text: &str) -> (r: Vec<char>)
    ensures
        r@ == text@,
{
    let mut out: Vec<char> = Vec::new();
    for c in it: text.chars()
        invariant
            out@ == it.seq().take(it.index() as int),
            it.seq() == text@,
    {
        out.push(c);
        assert(out@ =~= it.seq().take(it.index() + 1));
    }
    assert(out@ =~= text@);
    out
}

/// The string of the characters from `from` up to `to`.
pub fn string_of(chars: &Vec<char>, from: usize, to: usize) -> (r: String)
    requires
        from <= to <= chars.len(),
    ensures
        r@ == chars@.subrange(from as int, to as int),
{
    let mut out = String::new();
    let mut i: usize = from;
    while i < to
        invariant
            from <= i <= to <= chars.len(),
            out@ == chars@.subrange(from as int, i as int),
        decreases to - i,
    {
        push_char(&mut out, chars[i]);
        assert(out@ =~= chars@.subrange(from as int, i + 1));
        i += 1;
    }
    out
}

/// The decimal digit for `d`.
pub open spec fn digit(d: int) -> char {
    if d == 0 {
        '0'
    } else if d == 1 {
        '1'
    } else if d == 2 {
        '2'
    } else if d == 3 {
        '3'
    } else if d == 4 {
        '4'
    } else if d == 5 {
        '5'
    } else if d == 6 {
        '6'
    } else if d == 7 {
        '7'
    } else if d == 8 {
        '8'
    } else {
        '9'
    }
}

/// The value of a decimal digit; nothing for other characters.
pub open spec fn digit_value(c: char) -> Option<int> {
    if c == '0' {
        Some(0)
    } else if c == '1' {
        Some(1)
    } else if c == '2' {
        Some(2)
    } else if c == '3' {
        Some(3)
    } else if c == '4' {
        Some(4)
    } else if c == '5' {
        Some(5)
    } else if c == '6' {
        Some(6)
    } else if c == '7' {
        Some(7)
    } else if c == '8' {
        Some(8)
    } else if c == '9' {
        Some(9)
    } else {
        None
    }
}

/// The decimal digits of `n`, without leading zeros.
pub open spec fn decimal(n: nat) -> Seq<char>
    decreases n,
{
    if n < 10 {
        seq![digit(n as int)]
    } else {
        decimal(n / 10).push(digit((n % 10) as int))
    }
}

/// The decimal text of an integer: a minus sign in front of the digits of
/// a negative one.
pub open spec fn int_text(i: int) -> Seq<char> {
    if i < 0 {
        seq!['-'] + decimal((-i) as nat)
    } else {
        decimal(i as nat)
    }
}

/// The number that decimal digits stand for; nothing if one of the
/// characters is no digit, or if there is none.
pub open spec fn decimal_value(digits: Seq<char>) -> Option<nat>
    decreases digits.len(),
{
    if digits.len() == 0 {
        None
    } else {
        match digit_value(digits.last()) {
            Some(d) => if digits.len() == 1 {
                Some(d as nat)
            } else {
                match decimal_value(digits.drop_last()) {
                    Some(front) => Some((front * 10 + d) as nat),
                    None => None,
                }
            },
            None => None,
        }
    }
}

/// The digits of a number stand for the number.
pub proof fn lemma_decimal_round_trip(n: nat)
    ensures
        decimal_value(decimal(n)) == Some(n),
        decimal(n).len() >= 1,
        forall|k: int| 0 <= k < decimal(n).len() ==> digit_value(#[trigger] decimal(n)[k]) is Some,
    decreases n,
{
    if n < 10 {
    } else {
        lemma_decimal_round_trip(n / 10);
        let front = decimal(n / 10);
        let all = front.push(digit((n % 10) as int));
        assert(all.drop_last() =~= front);
        assert(all.last() == digit((n % 10) as int));
        assert(digit_value(digit((n % 10) as int)) == Some((n % 10) as int));
        assert forall|k: int| 0 <= k < all.len() implies digit_value(#[trigger] all[k]) is Some by {
            if k < front.len() {
                assert(all[k] == front[k]);
            }
        }
    }
}

/// The text of one decimal digit.
fn digit_text(d: u8) -> (r: &'static str)
    requires
        d < 10,
    ensures
        r@ == seq![digit(d as int)],
{
    proof {
        reveal_strlit("0");
        reveal_strlit("1");
        reveal_strlit("2");
        reveal_strlit("3");
        reveal_strlit("4");
        reveal_strlit("5");
        reveal_strlit("6");
        reveal_strlit("7");
        reveal_strlit("8");
        reveal_strlit("9");
    }
    let r = if d == 0 {
        "0"
    } else if d == 1 {
        "1"
    } else if d == 2 {
        "2"
    } else if d == 3 {
        "3"
    } else if d == 4 {
        "4"
    } else if d == 5 {
        "5"
    } else if d == 6 {
        "6"
    } else if d == 7 {
        "7"
    } else if d == 8 {
        "8"
    } else {
        "9"
    };
    assert(r@ =~= seq![digit(d as int)]);
    r
}

/// The decimal digits of `n`.
pub fn decimal_text(n: u128) -> (r: String)
    ensures
        r@ == decimal(n as nat),
    decreases n,
{
    if n < 10 {
        digit_text(n as u8).to_string()
    } else {
        let front = decimal_text(n / 10);
        let r = front.concat(digit_text((n % 10) as u8));
        assert(r@ =~= decimal(n as nat));
        r
    }
}

/// The decimal text of `i`.
pub fn int_to_text(i: i128) -> (r: String)
    ensures
        r@ == int_text(i as int),
{
    if i < 0 {
        proof {
            reveal_strlit("-");
        }
        let magnitude: u128 = ((-(i + 1)) as u128) + 1;
        let r = "-".to_string().concat(decimal_text(magnitude).as_str());
        assert(r@ =~= int_text(i as int));
        r
    } else {
        decimal_text(i as u128)
    }
}

/// A string's characters with a backslash in front of each single quote
/// and of each backslash among the first `n`.
pub open spec fn escaped(text: Seq<char>, n: nat) -> Seq<char>
    decreases n,
{
    if n == 0 || n > text.len() {
        Seq::empty()
    } else {
        let c = text[n - 1];
        if c == '\'' || c == '\\' {
            escaped(text, (n - 1) as nat).push('\\').push(c)
        } else {
            escaped(text, (n - 1) as nat).push(c)
        }
    }
}

/// The literal that stands for a string: its characters between single
/// quotes, with a backslash in front of each single quote and of each
/// backslash.
pub open spec fn quoted(text: Seq<char>) -> Seq<char> {
    seq!['\''] + escaped(text, text.len()) + seq!['\'']
}

/// The literal that stands for `text`.
pub fn quote(text: &str) -> (r: String)
    ensures
        r@ == quoted(text@),
{
    let chars = chars_of(text);
    let mut body = String::new();
    let mut i: usize = 0;
    while i < chars.len()
        invariant
            i <= chars.len(),
            body@ == escaped(chars@, i as nat),
        decreases chars.len() - i,
    {
        let c = chars[i];
        if c == '\'' || c == '\\' {
            push_char(&mut body, '\\');
        }
        push_char(&mut body, c);
        i += 1;
    }
    proof {
        reveal_strlit("'");
    }
    let r = "'".to_string().concat(body.as_str()).concat("'");
    assert(r@ =~= quoted(text@));
    r
}

} // verus!
