//! The lexer: source text to tokens.
//!
//! The text is cut into lexemes first, one after the other from the left;
//! each lexeme then becomes a token. A number with a fraction or an exponent
//! is given to the caller's reader for its value: the library itself does
//! no arithmetic on such numbers.

use vstd::prelude::*;
use crate::text::chars_of;
use crate::text::decimal;
use crate::text::decimal_value;
use crate::text::escaped;
use crate::text::int_text;
use crate::text::lemma_decimal_round_trip;
use crate::text::quoted;
use crate::text::digit_value;
use crate::text::is_numeric;
use crate::text::is_whitespace;
use crate::text::numeric;
use crate::text::push_char;
use crate::text::str_eq;
use crate::text::string_of;
use crate::text::white_space;

verus! {

/// Operators of the surface syntax, including the two parenthesis markers.
#[derive(Eq, PartialEq, Debug, Copy, Clone, Structural)]
pub enum Operator {
    Plus,
    Minus,
    Multiply,
    Divide,
    Mod,
    BitShiftLeft,
    BitShiftRight,
    Not,
    Equals,
    NotEquals,
    And,
    Or,
    Xor,
    OpenParen,
    CloseParen,
    Greater,
    GreaterEquals,
    Less,
    LessEquals,
}

/// A double-precision number, held as its IEEE-754 bit pattern.
///
/// Two values are the same number for interning exactly when their bit
/// patterns agree, which is the equality of the IEEE-754 total order.
#[derive(Eq, PartialEq, Debug, Copy, Clone, Structural)]
pub struct Float(pub u64);

/// A token.
#[derive(PartialEq, Eq, Debug, Clone)]
pub enum Token {
    LiteralFloat(Float),
    LiteralInteger(i128),
    LiteralString(String),
    Operator(Operator),
    Identifier(String),
    NewLine,
    Assign,
    True,
    False,
    NoneValue,
    Comma,
    Colon,
    IfKeyword,
    WhileKeyword,
    BreakKeyword,
    ElifKeyword,
    ElseKeyword,
    Indentation,
}

/// A piece of source text that becomes one token.
#[derive(Debug, Clone, PartialEq, Eq)]
pub enum PartialToken {
    /// A number, as it is written.
    LiteralFloat(String),
    Operator(String),
    Identifier(String),
    /// The text of a string literal, without its quotes and escapes.
    String(String),
    NewLine,
    Comma,
    Colon,
    Indentation,
}

/// The mathematical value of a [`PartialToken`].
pub enum Lexeme {
    Number(Seq<char>),
    Operator(Seq<char>),
    Identifier(Seq<char>),
    Text(Seq<char>),
    NewLine,
    Comma,
    Colon,
    Indentation,
}

impl DeepView for PartialToken {
    type V = Lexeme;

    open spec fn deep_view(&self) -> Lexeme {
        match self {
            PartialToken::LiteralFloat(s) => Lexeme::Number(s@),
            PartialToken::Operator(s) => Lexeme::Operator(s@),
            PartialToken::Identifier(s) => Lexeme::Identifier(s@),
            PartialToken::String(s) => Lexeme::Text(s@),
            PartialToken::NewLine => Lexeme::NewLine,
            PartialToken::Comma => Lexeme::Comma,
            PartialToken::Colon => Lexeme::Colon,
            PartialToken::Indentation => Lexeme::Indentation,
        }
    }
}

/// Why a text cannot be cut into lexemes.
#[derive(Debug, Clone, Copy, PartialEq, Eq, Structural)]
pub enum LexError {
    /// No lexeme begins with this character.
    Unrecognized(char),
    /// A line begins with a number of spaces that is no multiple of four.
    Indentation,
    /// In a string literal, a backslash stands in front of this character,
    /// which is neither the literal's quote nor a backslash.
    Escape(char),
}

/// Whether `c` is a letter of the ASCII alphabet.
pub open spec fn ascii_letter(c: char) -> bool {
    ('a' <= c && c <= 'z') || ('A' <= c && c <= 'Z')
}

/// Whether `c` can begin an identifier.
pub open spec fn begins_identifier(c: char) -> bool {
    ascii_letter(c) || c == '_'
}

/// Whether `c` can stand inside an identifier.
pub open spec fn in_identifier(c: char) -> bool {
    ascii_letter(c) || ('0' <= c && c <= '9') || c == '_'
}

/// Whether `c` can stand in a number: a decimal digit, or another numeric
/// character.
pub open spec fn in_number(c: char) -> bool {
    ('0' <= c && c <= '9') || numeric(c)
}

/// Whether `c` is skipped between lexemes: a space, or other white space.
pub open spec fn blank(c: char) -> bool {
    c == ' ' || white_space(c)
}

/// The end of the run of characters from `from` on that satisfy `in_run`.
pub open spec fn run_end(chars: Seq<char>, from: int, in_run: spec_fn(char) -> bool) -> int
    decreases chars.len() - from,
{
    if 0 <= from < chars.len() && in_run(chars[from]) {
        run_end(chars, from + 1, in_run)
    } else {
        from
    }
}

/// The position behind the character `c` at `at`, or `at` if another
/// character, or none, stands there.
pub open spec fn skip_char(chars: Seq<char>, at: int, c: char) -> int {
    if 0 <= at < chars.len() && chars[at] == c {
        at + 1
    } else {
        at
    }
}

/// The end of the number that begins at `from`: digits, then a point,
/// digits, the letter `e`, a minus sign, and digits, each of which may be
/// missing.
pub open spec fn number_end(chars: Seq<char>, from: int) -> int {
    let whole = run_end(chars, from, |c: char| in_number(c));
    let point = skip_char(chars, whole, '.');
    let fraction = run_end(chars, point, |c: char| in_number(c));
    let e = skip_char(chars, fraction, 'e');
    let sign = skip_char(chars, e, '-');
    run_end(chars, sign, |c: char| in_number(c))
}

/// The operators as they are written, in the order in which they are
/// tried.
pub open spec fn operator_spellings() -> Seq<Seq<char>> {
    seq![
        "+"@,
        "-"@,
        "*"@,
        "/"@,
        "%"@,
        "<<"@,
        ">>"@,
        "<="@,
        ">="@,
        ">"@,
        "<"@,
        "!="@,
        "=="@,
        "="@,
        "^"@,
        "("@,
        ")"@,
    ]
}

/// Whether the characters `word` stand in `chars` from `at` on.
pub open spec fn stands_at(chars: Seq<char>, at: int, word: Seq<char>) -> bool {
    0 <= at && at + word.len() <= chars.len() && chars.subrange(at, at + word.len()) == word
}

/// The first of the spellings from number `k` on that stands at `at`.
pub open spec fn operator_from(chars: Seq<char>, at: int, k: int) -> Option<Seq<char>>
    decreases operator_spellings().len() - k,
{
    if k < 0 || k >= operator_spellings().len() {
        None
    } else if stands_at(chars, at, operator_spellings()[k]) {
        Some(operator_spellings()[k])
    } else {
        operator_from(chars, at, k + 1)
    }
}

/// What a string literal holds, and where it ends.
pub struct Quoted {
    /// The characters that the literal stands for.
    pub text: Seq<char>,
    /// The position of the closing quote, or the end of the text if the
    /// literal is not closed.
    pub end: int,
}

/// Reads a string literal whose quote is `stop` from `at` on, where `text`
/// has been read already and `escaping` says whether a backslash stands
/// directly before `at`. A backslash makes the quote, or a backslash,
/// behind it part of the text.
pub open spec fn quoted_from(
    chars: Seq<char>,
    at: int,
    stop: char,
    escaping: bool,
    text: Seq<char>,
) -> Result<Quoted, LexError>
    decreases chars.len() - at,
{
    if at < 0 || at >= chars.len() {
        Ok(Quoted { text, end: at })
    } else {
        let c = chars[at];
        if escaping {
            if c == stop || c == '\\' {
                quoted_from(chars, at + 1, stop, false, text.push(c))
            } else {
                Err(LexError::Escape(c))
            }
        } else if c == '\\' {
            quoted_from(chars, at + 1, stop, true, text)
        } else if c == stop {
            Ok(Quoted { text, end: at })
        } else {
            quoted_from(chars, at + 1, stop, false, text.push(c))
        }
    }
}

/// What the lexer cuts off at a position: the lexemes, and where it goes
/// on.
pub struct Cut {
    pub lexemes: Seq<Lexeme>,
    pub next: int,
}

/// What the lexer cuts off at `at`, a position inside the text.
///
/// A quote begins a string literal; a comma, a colon and a line feed are
/// lexemes by themselves; a letter or an underscore begins an identifier;
/// an operator is the first of the spellings that stands there; a digit
/// or another numeric character begins a number; spaces at the beginning of a line, but the
/// first line, are one indentation for every four of them; other white
/// space is skipped.
pub open spec fn cut_at(chars: Seq<char>, at: int) -> Result<Cut, LexError>
    recommends
        0 <= at < chars.len(),
{
    let c = chars[at];
    if c == '\'' || c == '"' {
        match quoted_from(chars, at + 1, c, false, Seq::empty()) {
            Ok(quoted) => Ok(
                Cut {
                    lexemes: seq![Lexeme::Text(quoted.text)],
                    next: if quoted.end < chars.len() {
                        quoted.end + 1
                    } else {
                        chars.len() as int
                    },
                },
            ),
            Err(e) => Err(e),
        }
    } else if c == ',' {
        Ok(Cut { lexemes: seq![Lexeme::Comma], next: at + 1 })
    } else if c == ':' {
        Ok(Cut { lexemes: seq![Lexeme::Colon], next: at + 1 })
    } else if c == '\n' {
        Ok(Cut { lexemes: seq![Lexeme::NewLine], next: at + 1 })
    } else if begins_identifier(c) {
        let end = run_end(chars, at + 1, |c: char| in_identifier(c));
        Ok(Cut { lexemes: seq![Lexeme::Identifier(chars.subrange(at, end))], next: end })
    } else if operator_from(chars, at, 0) is Some {
        let spelling = operator_from(chars, at, 0).unwrap();
        Ok(Cut { lexemes: seq![Lexeme::Operator(spelling)], next: at + spelling.len() })
    } else if in_number(c) {
        let end = number_end(chars, at);
        Ok(Cut { lexemes: seq![Lexeme::Number(chars.subrange(at, end))], next: end })
    } else if c == ' ' && at > 0 && chars[at - 1] == '\n' {
        let end = run_end(chars, at, |c: char| c == ' ');
        if (end - at) % 4 == 0 {
            Ok(Cut { lexemes: Seq::new(((end - at) / 4) as nat, |i: int| Lexeme::Indentation), next: end })
        } else {
            Err(LexError::Indentation)
        }
    } else if blank(c) {
        Ok(Cut { lexemes: Seq::empty(), next: at + 1 })
    } else {
        Err(LexError::Unrecognized(c))
    }
}

/// A run ends at or behind its beginning, inside the text.
pub proof fn lemma_run_end(chars: Seq<char>, from: int, in_run: spec_fn(char) -> bool)
    requires
        0 <= from <= chars.len(),
    ensures
        from <= run_end(chars, from, in_run) <= chars.len(),
        forall|k: int| from <= k < run_end(chars, from, in_run) ==> in_run(#[trigger] chars[k]),
        run_end(chars, from, in_run) < chars.len() ==> !in_run(
            chars[run_end(chars, from, in_run)],
        ),
    decreases chars.len() - from,
{
    if from < chars.len() && in_run(chars[from]) {
        lemma_run_end(chars, from + 1, in_run);
    }
}

/// A run that goes on at `from` ends where the run from `from + 1` ends.
pub proof fn lemma_run_step(chars: Seq<char>, from: int, in_run: spec_fn(char) -> bool)
    requires
        0 <= from < chars.len(),
        in_run(chars[from]),
    ensures
        run_end(chars, from, in_run) == run_end(chars, from + 1, in_run),
{
}

/// An operator that stands somewhere is one of the spellings, and not
/// empty.
pub proof fn lemma_operator_from(chars: Seq<char>, at: int, k: int)
    requires
        0 <= k,
    ensures
        operator_from(chars, at, k) matches Some(spelling) ==> stands_at(chars, at, spelling)
            && 1 <= spelling.len() <= 2 && operator_spellings().contains(spelling),
    decreases operator_spellings().len() - k,
{
    reveal_strlit("+");
    reveal_strlit("-");
    reveal_strlit("*");
    reveal_strlit("/");
    reveal_strlit("%");
    reveal_strlit("<<");
    reveal_strlit(">>");
    reveal_strlit("<=");
    reveal_strlit(">=");
    reveal_strlit(">");
    reveal_strlit("<");
    reveal_strlit("!=");
    reveal_strlit("==");
    reveal_strlit("=");
    reveal_strlit("^");
    reveal_strlit("(");
    reveal_strlit(")");
    if k < operator_spellings().len() {
        if stands_at(chars, at, operator_spellings()[k]) {
        } else {
            lemma_operator_from(chars, at, k + 1);
        }
    }
}

/// A string literal ends inside the text, at or behind where its reading
/// began.
pub proof fn lemma_quoted_from(
    chars: Seq<char>,
    at: int,
    stop: char,
    escaping: bool,
    text: Seq<char>,
)
    requires
        0 <= at <= chars.len(),
    ensures
        quoted_from(chars, at, stop, escaping, text) matches Ok(quoted) ==> at <= quoted.end
            <= chars.len(),
    decreases chars.len() - at,
{
    if at < chars.len() {
        let c = chars[at];
        if escaping {
            if c == stop || c == '\\' {
                lemma_quoted_from(chars, at + 1, stop, false, text.push(c));
            }
        } else if c == '\\' {
            lemma_quoted_from(chars, at + 1, stop, true, text);
        } else if c == stop {
        } else {
            lemma_quoted_from(chars, at + 1, stop, false, text.push(c));
        }
    }
}

/// The lexer always moves on.
pub proof fn lemma_cut_moves(chars: Seq<char>, at: int)
    requires
        0 <= at < chars.len(),
    ensures
        cut_at(chars, at) matches Ok(cut) ==> at < cut.next <= chars.len(),
{
    let c = chars[at];
    if c == '\'' || c == '"' {
        lemma_quoted_from(chars, at + 1, c, false, Seq::empty());
    } else if c == ',' || c == ':' || c == '\n' {
    } else if begins_identifier(c) {
        lemma_run_end(chars, at + 1, |c: char| in_identifier(c));
    } else if operator_from(chars, at, 0) is Some {
        lemma_operator_from(chars, at, 0);
    } else if in_number(c) {
        let is_numeric = |c: char| in_number(c);
        lemma_run_end(chars, at, is_numeric);
        lemma_run_step(chars, at, is_numeric);
        lemma_run_end(chars, at + 1, is_numeric);
        let whole = run_end(chars, at, is_numeric);
        let point = skip_char(chars, whole, '.');
        lemma_run_end(chars, point, is_numeric);
        let fraction = run_end(chars, point, is_numeric);
        let e = skip_char(chars, fraction, 'e');
        let sign = skip_char(chars, e, '-');
        lemma_run_end(chars, sign, is_numeric);
    } else if c == ' ' && at > 0 && chars[at - 1] == '\n' {
        let is_space = |c: char| c == ' ';
        lemma_run_step(chars, at, is_space);
        lemma_run_end(chars, at + 1, is_space);
    }
}

/// The lexemes of the text from `at` on: what is cut off at `at`, followed
/// by the lexemes of what is left.
pub open spec fn lexemes_from(chars: Seq<char>, at: int) -> Result<Seq<Lexeme>, LexError>
    decreases chars.len() - at,
{
    if at < 0 || at >= chars.len() {
        Ok(Seq::empty())
    } else {
        match cut_at(chars, at) {
            Ok(cut) => if at < cut.next <= chars.len() {
                match lexemes_from(chars, cut.next) {
                    Ok(rest) => Ok(cut.lexemes + rest),
                    Err(e) => Err(e),
                }
            } else {
                Ok(cut.lexemes)
            },
            Err(e) => Err(e),
        }
    }
}

/// The lexemes of a text.
pub open spec fn lexemes(source: Seq<char>) -> Result<Seq<Lexeme>, LexError> {
    lexemes_from(source, 0)
}

/// The mathematical value of a [`Token`].
pub enum TokenView {
    LiteralFloat(Float),
    LiteralInteger(i128),
    LiteralString(Seq<char>),
    Operator(Operator),
    Identifier(Seq<char>),
    NewLine,
    Assign,
    True,
    False,
    NoneValue,
    Comma,
    Colon,
    IfKeyword,
    WhileKeyword,
    BreakKeyword,
    ElifKeyword,
    ElseKeyword,
    Indentation,
}

impl DeepView for Token {
    type V = TokenView;

    open spec fn deep_view(&self) -> TokenView {
        match self {
            Token::LiteralFloat(f) => TokenView::LiteralFloat(*f),
            Token::LiteralInteger(i) => TokenView::LiteralInteger(*i),
            Token::LiteralString(s) => TokenView::LiteralString(s@),
            Token::Operator(op) => TokenView::Operator(*op),
            Token::Identifier(s) => TokenView::Identifier(s@),
            Token::NewLine => TokenView::NewLine,
            Token::Assign => TokenView::Assign,
            Token::True => TokenView::True,
            Token::False => TokenView::False,
            Token::NoneValue => TokenView::NoneValue,
            Token::Comma => TokenView::Comma,
            Token::Colon => TokenView::Colon,
            Token::IfKeyword => TokenView::IfKeyword,
            Token::WhileKeyword => TokenView::WhileKeyword,
            Token::BreakKeyword => TokenView::BreakKeyword,
            Token::ElifKeyword => TokenView::ElifKeyword,
            Token::ElseKeyword => TokenView::ElseKeyword,
            Token::Indentation => TokenView::Indentation,
        }
    }
}

/// Whether a number is written with a fraction or an exponent.
pub open spec fn written_as_float(text: Seq<char>) -> bool {
    text.contains('.') || text.contains('e')
}

/// The token of a word: a keyword, or an identifier.
pub open spec fn word_token(word: Seq<char>) -> TokenView {
    if word == "None"@ {
        TokenView::NoneValue
    } else if word == "not"@ {
        TokenView::Operator(Operator::Not)
    } else if word == "True"@ {
        TokenView::True
    } else if word == "False"@ {
        TokenView::False
    } else if word == "and"@ {
        TokenView::Operator(Operator::And)
    } else if word == "or"@ {
        TokenView::Operator(Operator::Or)
    } else if word == "if"@ {
        TokenView::IfKeyword
    } else if word == "elif"@ {
        TokenView::ElifKeyword
    } else if word == "else"@ {
        TokenView::ElseKeyword
    } else if word == "while"@ {
        TokenView::WhileKeyword
    } else if word == "break"@ {
        TokenView::BreakKeyword
    } else {
        TokenView::Identifier(word)
    }
}

/// The token of an operator as it is written.
pub open spec fn operator_token(spelling: Seq<char>) -> Option<TokenView> {
    if spelling == "+"@ {
        Some(TokenView::Operator(Operator::Plus))
    } else if spelling == "-"@ {
        Some(TokenView::Operator(Operator::Minus))
    } else if spelling == "*"@ {
        Some(TokenView::Operator(Operator::Multiply))
    } else if spelling == "/"@ {
        Some(TokenView::Operator(Operator::Divide))
    } else if spelling == "%"@ {
        Some(TokenView::Operator(Operator::Mod))
    } else if spelling == "^"@ {
        Some(TokenView::Operator(Operator::Xor))
    } else if spelling == "<<"@ {
        Some(TokenView::Operator(Operator::BitShiftLeft))
    } else if spelling == ">>"@ {
        Some(TokenView::Operator(Operator::BitShiftRight))
    } else if spelling == "=="@ {
        Some(TokenView::Operator(Operator::Equals))
    } else if spelling == "="@ {
        Some(TokenView::Assign)
    } else if spelling == "!="@ {
        Some(TokenView::Operator(Operator::NotEquals))
    } else if spelling == "("@ {
        Some(TokenView::Operator(Operator::OpenParen))
    } else if spelling == ")"@ {
        Some(TokenView::Operator(Operator::CloseParen))
    } else if spelling == ">"@ {
        Some(TokenView::Operator(Operator::Greater))
    } else if spelling == "<"@ {
        Some(TokenView::Operator(Operator::Less))
    } else if spelling == ">="@ {
        Some(TokenView::Operator(Operator::GreaterEquals))
    } else if spelling == "<="@ {
        Some(TokenView::Operator(Operator::LessEquals))
    } else {
        None
    }
}

/// The token of a lexeme, where `value` is what the reader made of it if
/// it is a number written with a fraction or an exponent. A number
/// written without is the integer that its digits stand for; it has no
/// token if it holds anything but digits or is larger than the largest
/// integer.
pub open spec fn token_of(lexeme: Lexeme, value: Option<Float>) -> Option<TokenView> {
    match lexeme {
        Lexeme::Number(text) => if written_as_float(text) {
            match value {
                Some(f) => Some(TokenView::LiteralFloat(f)),
                None => None,
            }
        } else {
            match decimal_value(text) {
                Some(n) => if n <= i128::MAX {
                    Some(TokenView::LiteralInteger(n as i128))
                } else {
                    None
                },
                None => None,
            }
        },
        Lexeme::Operator(spelling) => operator_token(spelling),
        Lexeme::Identifier(word) => Some(word_token(word)),
        Lexeme::Text(text) => Some(TokenView::LiteralString(text)),
        Lexeme::NewLine => Some(TokenView::NewLine),
        Lexeme::Comma => Some(TokenView::Comma),
        Lexeme::Colon => Some(TokenView::Colon),
        Lexeme::Indentation => Some(TokenView::Indentation),
    }
}

/// Digits in front of a number only make it larger.
pub proof fn lemma_decimal_grows(digits: Seq<char>, k: int)
    requires
        1 <= k <= digits.len(),
        decimal_value(digits) is Some,
    ensures
        decimal_value(digits.subrange(0, k)) matches Some(front) && front <= decimal_value(
            digits,
        ).unwrap(),
    decreases digits.len() - k,
{
    if k == digits.len() {
        assert(digits.subrange(0, k) =~= digits);
    } else {
        assert(digits.drop_last().subrange(0, k) =~= digits.subrange(0, k));
        lemma_decimal_grows(digits.drop_last(), k);
    }
}

/// A number with a character that is no digit stands for nothing.
pub proof fn lemma_decimal_needs_digits(digits: Seq<char>, k: int)
    requires
        0 <= k < digits.len(),
        digit_value(digits[k]) is None,
    ensures
        decimal_value(digits) is None,
    decreases digits.len(),
{
    if k == digits.len() - 1 {
    } else {
        lemma_decimal_needs_digits(digits.drop_last(), k);
    }
}

/// The value of a decimal digit.
fn digit_of(c: char) -> (r: Option<i128>)
    ensures
        match r {
            Some(d) => digit_value(c) == Some(d as int) && 0 <= d <= 9,
            None => digit_value(c) is None,
        },
{
    if c == '0' {
        Some(0)
    } else if c == '1' {
        Some(1)
    } else if c == '2' {
        Some(2)
    } else if c == '3' {
        Some(3)
    } else if c == '4' {
        Some(4)
    } else if c == '5' {
        Some(5)
    } else if c == '6' {
        Some(6)
    } else if c == '7' {
        Some(7)
    } else if c == '8' {
        Some(8)
    } else if c == '9' {
        Some(9)
    } else {
        None
    }
}

/// The integer that the digits `text` stand for, if they are digits and
/// the integer is not too large.
pub fn parse_integer(text: &Vec<char>) -> (r: Option<i128>)
    ensures
        r == match decimal_value(text@) {
            Some(n) => if n <= i128::MAX {
                Some(n as i128)
            } else {
                None
            },
            None => None,
        },
{
    if text.len() == 0 {
        return None;
    }
    let mut value: i128 = 0;
    let mut i: usize = 0;
    while i < text.len()
        invariant
            i <= text.len(),
            0 <= value,
            i > 0 ==> decimal_value(text@.subrange(0, i as int)) == Some(value as nat),
            i == 0 ==> value == 0,
            forall|k: int| 0 <= k < i ==> digit_value(#[trigger] text@[k]) is Some,
        decreases text.len() - i,
    {
        let ghost front = text@.subrange(0, i as int);
        let ghost longer = text@.subrange(0, i + 1);
        assert(longer.drop_last() =~= front);
        assert(longer.last() == text@[i as int]);
        let d = match digit_of(text[i]) {
            Some(d) => d,
            None => {
                proof {
                    lemma_decimal_needs_digits(text@, i as int);
                }
                return None;
            },
        };
        let next = match value.checked_mul(10) {
            Some(shifted) => shifted.checked_add(d),
            None => None,
        };
        match next {
            Some(n) => {
                value = n;
            },
            None => {
                proof {
                    assert(decimal_value(longer) == Some((value * 10 + d) as nat));
                    let whole = text@;
                    if decimal_value(whole) is Some {
                        lemma_decimal_grows(whole, i + 1);
                    }
                }
                return None;
            },
        }
        i += 1;
    }
    assert(text@.subrange(0, i as int) =~= text@);
    Some(value)
}

/// Whether `c` can stand in a number.
fn is_number_char(c: char) -> (r: bool)
    ensures
        r == in_number(c),
{
    ('0' <= c && c <= '9') || is_numeric(c)
}

/// Whether `c` is skipped between lexemes.
fn is_blank(c: char) -> (r: bool)
    ensures
        r == blank(c),
{
    c == ' ' || is_whitespace(c)
}

/// The end of the run of numeric characters from `from` on.
fn eat_numbers(chars: &Vec<char>, from: usize) -> (end: usize)
    requires
        from <= chars.len(),
    ensures
        end == run_end(chars@, from as int, |c: char| in_number(c)),
        from <= end <= chars.len(),
{
    let mut i: usize = from;
    while i < chars.len() && is_number_char(chars[i])
        invariant
            from <= i <= chars.len(),
            run_end(chars@, i as int, |c: char| in_number(c)) == run_end(
                chars@,
                from as int,
                |c: char| in_number(c),
            ),
        decreases chars.len() - i,
    {
        i += 1;
    }
    i
}

/// Whether `c` can stand inside an identifier.
fn is_identifier_char(c: char) -> (r: bool)
    ensures
        r == in_identifier(c),
        begins_identifier(c) ==> r,
{
    ('a' <= c && c <= 'z') || ('A' <= c && c <= 'Z') || ('0' <= c && c <= '9') || c == '_'
}

/// The end of the run of identifier characters from `from` on.
fn eat_identifier(chars: &Vec<char>, from: usize) -> (end: usize)
    requires
        from <= chars.len(),
    ensures
        end == run_end(chars@, from as int, |c: char| in_identifier(c)),
        from <= end <= chars.len(),
{
    let mut i: usize = from;
    while i < chars.len() && is_identifier_char(chars[i])
        invariant
            from <= i <= chars.len(),
            run_end(chars@, i as int, |c: char| in_identifier(c)) == run_end(
                chars@,
                from as int,
                |c: char| in_identifier(c),
            ),
        decreases chars.len() - i,
    {
        i += 1;
    }
    i
}

/// The end of the run of spaces from `from` on.
fn eat_spaces(chars: &Vec<char>, from: usize) -> (end: usize)
    requires
        from <= chars.len(),
    ensures
        end == run_end(chars@, from as int, |c: char| c == ' '),
        from <= end <= chars.len(),
{
    let mut i: usize = from;
    while i < chars.len() && chars[i] == ' '
        invariant
            from <= i <= chars.len(),
            run_end(chars@, i as int, |c: char| c == ' ') == run_end(
                chars@,
                from as int,
                |c: char| c == ' ',
            ),
        decreases chars.len() - i,
    {
        i += 1;
    }
    i
}

/// The position behind `c` at `at`, or `at` if `c` does not stand there.
fn eat_char(chars: &Vec<char>, at: usize, c: char) -> (end: usize)
    requires
        at <= chars.len(),
    ensures
        end == skip_char(chars@, at as int, c),
        at <= end <= chars.len(),
{
    if at < chars.len() && chars[at] == c {
        at + 1
    } else {
        at
    }
}

/// The end of the number that begins at `from`.
fn eat_number(chars: &Vec<char>, from: usize) -> (end: usize)
    requires
        from <= chars.len(),
    ensures
        end == number_end(chars@, from as int),
        from <= end <= chars.len(),
{
    let whole = eat_numbers(chars, from);
    let point = eat_char(chars, whole, '.');
    let fraction = eat_numbers(chars, point);
    let e = eat_char(chars, fraction, 'e');
    let sign = eat_char(chars, e, '-');
    eat_numbers(chars, sign)
}

/// Reads the string literal whose quote is `stop` and whose text begins at
/// `at`: what it stands for, and where it ends.
fn eat_string_literal(chars: &Vec<char>, at: usize, stop: char) -> (r: Result<(String, usize), LexError>)
    requires
        at <= chars.len(),
    ensures
        match r {
            Ok((text, end)) => quoted_from(chars@, at as int, stop, false, Seq::empty()) == Ok::<
                Quoted,
                LexError,
            >(Quoted { text: text@, end: end as int }) && at <= end <= chars.len(),
            Err(e) => quoted_from(chars@, at as int, stop, false, Seq::empty()) == Err::<
                Quoted,
                LexError,
            >(e),
        },
{
    let mut text = String::new();
    let mut escaping = false;
    let mut i: usize = at;
    while i < chars.len()
        invariant
            at <= i <= chars.len(),
            quoted_from(chars@, i as int, stop, escaping, text@) == quoted_from(
                chars@,
                at as int,
                stop,
                false,
                Seq::empty(),
            ),
        decreases chars.len() - i,
    {
        let c = chars[i];
        if escaping {
            if c == stop || c == '\\' {
                push_char(&mut text, c);
                escaping = false;
            } else {
                return Err(LexError::Escape(c));
            }
        } else if c == '\\' {
            escaping = true;
        } else if c == stop {
            return Ok((text, i));
        } else {
            push_char(&mut text, c);
        }
        i += 1;
    }
    Ok((text, i))
}

/// Whether `query` stands in `chars` from `at` on.
fn match_partial(chars: &Vec<char>, at: usize, query: &Vec<char>) -> (r: bool)
    requires
        at <= chars.len(),
    ensures
        r == stands_at(chars@, at as int, query@),
{
    if query.len() > chars.len() - at {
        return false;
    }
    let mut i: usize = 0;
    while i < query.len()
        invariant
            i <= query.len(),
            at + query.len() <= chars.len(),
            forall|k: int| 0 <= k < i ==> chars@[at + k] == query@[k],
        decreases query.len() - i,
    {
        if chars[at + i] != query[i] {
            assert(chars@.subrange(at as int, at + query.len())[i as int] != query@[i as int]);
            return false;
        }
        i += 1;
    }
    assert(chars@.subrange(at as int, at + query.len()) =~= query@);
    true
}

/// The operator number `k` as it is written.
fn operator_spelling(k: usize) -> (r: &'static str)
    requires
        k < operator_spellings().len(),
    ensures
        r@ == operator_spellings()[k as int],
{
    if k == 0 {
        "+"
    } else if k == 1 {
        "-"
    } else if k == 2 {
        "*"
    } else if k == 3 {
        "/"
    } else if k == 4 {
        "%"
    } else if k == 5 {
        "<<"
    } else if k == 6 {
        ">>"
    } else if k == 7 {
        "<="
    } else if k == 8 {
        ">="
    } else if k == 9 {
        ">"
    } else if k == 10 {
        "<"
    } else if k == 11 {
        "!="
    } else if k == 12 {
        "=="
    } else if k == 13 {
        "="
    } else if k == 14 {
        "^"
    } else if k == 15 {
        "("
    } else {
        ")"
    }
}

/// The first operator that stands at `at`, with the number of its
/// characters.
fn match_first_and_advance(chars: &Vec<char>, at: usize) -> (r: Option<(&'static str, usize)>)
    requires
        at < chars.len(),
    ensures
        match r {
            Some((spelling, n)) => operator_from(chars@, at as int, 0) == Some(spelling@) && n
                == spelling@.len() && at + n <= chars.len() && n >= 1,
            None => operator_from(chars@, at as int, 0) is None,
        },
{
    let mut k: usize = 0;
    while k < 17
        invariant
            k <= 17 == operator_spellings().len(),
            at < chars.len(),
            operator_from(chars@, at as int, k as int) == operator_from(chars@, at as int, 0),
        decreases 17 - k,
    {
        let spelling = operator_spelling(k);
        let query = chars_of(spelling);
        if match_partial(chars, at, &query) {
            proof {
                lemma_operator_from(chars@, at as int, k as int);
            }
            return Some((spelling, query.len()));
        }
        k += 1;
    }
    None
}

/// What the lexer cuts off at `at`: the lexemes, and where it goes on.
fn cut(chars: &Vec<char>, at: usize) -> (r: Result<(Vec<PartialToken>, usize), LexError>)
    requires
        at < chars.len(),
    ensures
        match r {
            Ok((pieces, next)) => cut_at(chars@, at as int) == Ok::<Cut, LexError>(
                Cut { lexemes: pieces.deep_view(), next: next as int },
            ) && at < next <= chars.len(),
            Err(e) => cut_at(chars@, at as int) == Err::<Cut, LexError>(e),
        },
{
    proof {
        lemma_cut_moves(chars@, at as int);
    }
    let c = chars[at];
    let mut pieces: Vec<PartialToken> = Vec::new();
    if c == '\'' || c == '"' {
        match eat_string_literal(chars, at + 1, c) {
            Ok((text, end)) => {
                pieces.push(PartialToken::String(text));
                assert(pieces.deep_view() =~= seq![Lexeme::Text(text@)]);
                let next = if end < chars.len() {
                    end + 1
                } else {
                    chars.len()
                };
                Ok((pieces, next))
            },
            Err(e) => Err(e),
        }
    } else if c == ',' {
        pieces.push(PartialToken::Comma);
        assert(pieces.deep_view() =~= seq![Lexeme::Comma]);
        Ok((pieces, at + 1))
    } else if c == ':' {
        pieces.push(PartialToken::Colon);
        assert(pieces.deep_view() =~= seq![Lexeme::Colon]);
        Ok((pieces, at + 1))
    } else if c == '\n' {
        pieces.push(PartialToken::NewLine);
        assert(pieces.deep_view() =~= seq![Lexeme::NewLine]);
        Ok((pieces, at + 1))
    } else if ('a' <= c && c <= 'z') || ('A' <= c && c <= 'Z') || c == '_' {
        let end = eat_identifier(chars, at + 1);
        let word = string_of(chars, at, end);
        pieces.push(PartialToken::Identifier(word));
        assert(pieces.deep_view() =~= seq![Lexeme::Identifier(chars@.subrange(at as int, end as int))]);
        Ok((pieces, end))
    } else {
        match match_first_and_advance(chars, at) {
            Some((spelling, n)) => {
                pieces.push(PartialToken::Operator(spelling.to_string()));
                assert(pieces.deep_view() =~= seq![Lexeme::Operator(spelling@)]);
                Ok((pieces, at + n))
            },
            None => {
                if is_number_char(c) {
                    let end = eat_number(chars, at);
                    let text = string_of(chars, at, end);
                    pieces.push(PartialToken::LiteralFloat(text));
                    assert(pieces.deep_view() =~= seq![
                        Lexeme::Number(chars@.subrange(at as int, end as int)),
                    ]);
                    Ok((pieces, end))
                } else if c == ' ' && at > 0 && chars[at - 1] == '\n' {
                    let end = eat_spaces(chars, at);
                    let spaces = end - at;
                    if spaces % 4 != 0 {
                        return Err(LexError::Indentation);
                    }
                    let levels = spaces / 4;
                    let mut i: usize = 0;
                    while i < levels
                        invariant
                            i <= levels,
                            pieces.len() == i,
                            forall|k: int|
                                0 <= k < i ==> (#[trigger] pieces[k]).deep_view()
                                    == Lexeme::Indentation,
                        decreases levels - i,
                    {
                        pieces.push(PartialToken::Indentation);
                        i += 1;
                    }
                    assert(pieces.deep_view() =~= Seq::new(
                        levels as nat,
                        |i: int| Lexeme::Indentation,
                    ));
                    Ok((pieces, end))
                } else if is_blank(c) {
                    assert(pieces.deep_view() =~= Seq::<Lexeme>::empty());
                    Ok((pieces, at + 1))
                } else {
                    Err(LexError::Unrecognized(c))
                }
            },
        }
    }
}

/// Cuts a text into lexemes.
pub fn scan(source: &str) -> (r: Result<Vec<PartialToken>, LexError>)
    ensures
        match r {
            Ok(pieces) => lexemes(source@) == Ok::<Seq<Lexeme>, LexError>(pieces.deep_view()),
            Err(e) => lexemes(source@) == Err::<Seq<Lexeme>, LexError>(e),
        },
{
    let chars = chars_of(source);
    scan_chars(&chars)
}

/// Cuts a text, given by its characters, into lexemes.
pub fn scan_chars(chars: &Vec<char>) -> (r: Result<Vec<PartialToken>, LexError>)
    ensures
        match r {
            Ok(pieces) => lexemes(chars@) == Ok::<Seq<Lexeme>, LexError>(pieces.deep_view()),
            Err(e) => lexemes(chars@) == Err::<Seq<Lexeme>, LexError>(e),
        },
{
    let mut done: Vec<PartialToken> = Vec::new();
    let mut at: usize = 0;
    assert(done.deep_view() =~= Seq::<Lexeme>::empty());
    while at < chars.len()
        invariant
            at <= chars.len(),
            lexemes(chars@) == match lexemes_from(chars@, at as int) {
                Ok(rest) => Ok::<Seq<Lexeme>, LexError>(done.deep_view() + rest),
                Err(e) => Err::<Seq<Lexeme>, LexError>(e),
            },
        decreases chars.len() - at,
    {
        match cut(chars, at) {
            Ok((pieces, next)) => {
                let ghost before = done.deep_view();
                let ghost added = pieces.deep_view();
                let mut pieces = pieces;
                done.append(&mut pieces);
                proof {
                    assert(done.deep_view() =~= before + added);
                    match lexemes_from(chars@, next as int) {
                        Ok(rest) => {
                            assert(before + (added + rest) =~= (before + added) + rest);
                        },
                        Err(e) => {},
                    }
                }
                at = next;
            },
            Err(e) => {
                return Err(e);
            },
        }
    }
    assert(done.deep_view() + Seq::<Lexeme>::empty() =~= done.deep_view());
    Ok(done)
}

/// Whether a number is written with a fraction or an exponent.
pub fn is_written_as_float(text: &Vec<char>) -> (r: bool)
    ensures
        r == written_as_float(text@),
{
    let mut i: usize = 0;
    while i < text.len()
        invariant
            i <= text.len(),
            forall|k: int| 0 <= k < i ==> text@[k] != '.' && text@[k] != 'e',
        decreases text.len() - i,
    {
        if text[i] == '.' || text[i] == 'e' {
            return true;
        }
        i += 1;
    }
    false
}

/// The token of a word.
fn word_to_token(word: String) -> (r: Token)
    ensures
        r.deep_view() == word_token(word@),
{
    let text = word.as_str();
    if str_eq(text, "None") {
        Token::NoneValue
    } else if str_eq(text, "not") {
        Token::Operator(Operator::Not)
    } else if str_eq(text, "True") {
        Token::True
    } else if str_eq(text, "False") {
        Token::False
    } else if str_eq(text, "and") {
        Token::Operator(Operator::And)
    } else if str_eq(text, "or") {
        Token::Operator(Operator::Or)
    } else if str_eq(text, "if") {
        Token::IfKeyword
    } else if str_eq(text, "elif") {
        Token::ElifKeyword
    } else if str_eq(text, "else") {
        Token::ElseKeyword
    } else if str_eq(text, "while") {
        Token::WhileKeyword
    } else if str_eq(text, "break") {
        Token::BreakKeyword
    } else {
        Token::Identifier(word)
    }
}

/// The token of an operator as it is written.
fn operator_to_token(spelling: &str) -> (r: Option<Token>)
    ensures
        match r {
            Some(token) => operator_token(spelling@) == Some(token.deep_view()),
            None => operator_token(spelling@) is None,
        },
{
    if str_eq(spelling, "+") {
        Some(Token::Operator(Operator::Plus))
    } else if str_eq(spelling, "-") {
        Some(Token::Operator(Operator::Minus))
    } else if str_eq(spelling, "*") {
        Some(Token::Operator(Operator::Multiply))
    } else if str_eq(spelling, "/") {
        Some(Token::Operator(Operator::Divide))
    } else if str_eq(spelling, "%") {
        Some(Token::Operator(Operator::Mod))
    } else if str_eq(spelling, "^") {
        Some(Token::Operator(Operator::Xor))
    } else if str_eq(spelling, "<<") {
        Some(Token::Operator(Operator::BitShiftLeft))
    } else if str_eq(spelling, ">>") {
        Some(Token::Operator(Operator::BitShiftRight))
    } else if str_eq(spelling, "==") {
        Some(Token::Operator(Operator::Equals))
    } else if str_eq(spelling, "=") {
        Some(Token::Assign)
    } else if str_eq(spelling, "!=") {
        Some(Token::Operator(Operator::NotEquals))
    } else if str_eq(spelling, "(") {
        Some(Token::Operator(Operator::OpenParen))
    } else if str_eq(spelling, ")") {
        Some(Token::Operator(Operator::CloseParen))
    } else if str_eq(spelling, ">") {
        Some(Token::Operator(Operator::Greater))
    } else if str_eq(spelling, "<") {
        Some(Token::Operator(Operator::Less))
    } else if str_eq(spelling, ">=") {
        Some(Token::Operator(Operator::GreaterEquals))
    } else if str_eq(spelling, "<=") {
        Some(Token::Operator(Operator::LessEquals))
    } else {
        None
    }
}

impl PartialToken {
    /// Whether the piece is a number written with a fraction or an
    /// exponent, whose value the library leaves to a reader.
    pub fn needs_reader(&self) -> (r: bool)
        ensures
            r == (self.deep_view() matches Lexeme::Number(text) && written_as_float(text)),
    {
        match self {
            PartialToken::LiteralFloat(text) => {
                let chars = chars_of(text.as_str());
                is_written_as_float(&chars)
            },
            _ => false,
        }
    }

    /// Whether the piece has a token, where `value` is what the reader
    /// made of it if it is a number written with a fraction or an
    /// exponent. There is none for a number that the reader could not
    /// read, for an integer that is too large or holds anything but
    /// digits, and for an operator that is none.
    pub fn has_token(&self, value: Option<Float>) -> (r: bool)
        ensures
            r == (token_of(self.deep_view(), value) is Some),
    {
        match self {
            PartialToken::LiteralFloat(text) => {
                let chars = chars_of(text.as_str());
                if is_written_as_float(&chars) {
                    value.is_some()
                } else {
                    parse_integer(&chars).is_some()
                }
            },
            PartialToken::Operator(spelling) => operator_to_token(spelling.as_str()).is_some(),
            _ => true,
        }
    }

    /// The token of the piece, which has one, where `value` is what the
    /// reader made of it if it is a number written with a fraction or an
    /// exponent.
    pub fn to_token(self, value: Option<Float>) -> (r: Token)
        requires
            token_of(self.deep_view(), value) is Some,
        ensures
            token_of(self.deep_view(), value) == Some(r.deep_view()),
    {
        match self {
            PartialToken::LiteralFloat(text) => {
                let chars = chars_of(text.as_str());
                if is_written_as_float(&chars) {
                    match value {
                        Some(f) => Token::LiteralFloat(f),
                        None => unreached(),
                    }
                } else {
                    match parse_integer(&chars) {
                        Some(i) => Token::LiteralInteger(i),
                        None => unreached(),
                    }
                }
            },
            PartialToken::Operator(spelling) => match operator_to_token(spelling.as_str()) {
                Some(token) => token,
                None => unreached(),
            },
            PartialToken::Identifier(word) => word_to_token(word),
            PartialToken::String(text) => Token::LiteralString(text),
            PartialToken::NewLine => Token::NewLine,
            PartialToken::Comma => Token::Comma,
            PartialToken::Colon => Token::Colon,
            PartialToken::Indentation => Token::Indentation,
        }
    }
}

/// What is said of a text that cannot be cut into lexemes: the
/// character that begins no lexeme, or that cannot be escaped, behind a
/// few words; or the rule of indentation.
pub open spec fn description(error: LexError) -> Seq<char> {
    match error {
        LexError::Unrecognized(c) => "Unrecognized token "@.push(c),
        LexError::Indentation => "Indentation must be a multiple of 4"@,
        LexError::Escape(c) => "cannot escape char "@.push(c),
    }
}

/// What is said of a text that cannot be cut into lexemes.
pub fn describe(error: LexError) -> (r: String)
    ensures
        r@ == description(error),
{
    match error {
        LexError::Unrecognized(c) => {
            let mut text = "Unrecognized token ".to_string();
            push_char(&mut text, c);
            text
        },
        LexError::Indentation => "Indentation must be a multiple of 4".to_string(),
        LexError::Escape(c) => {
            let mut text = "cannot escape char ".to_string();
            push_char(&mut text, c);
            text
        },
    }
}

/// Whether `token` is the token of `lexeme`, where a number written with
/// a fraction or an exponent has the value that `read_float` made of it.
pub open spec fn is_token_of<F: Fn(String) -> Option<Float>>(
    read_float: F,
    lexeme: Lexeme,
    token: Token,
) -> bool {
    match lexeme {
        Lexeme::Number(text) if written_as_float(text) => exists|written: String, value: Float|
            written@ == text && #[trigger] call_ensures(read_float, (written,), Some(value))
                && token_of(lexeme, Some(value)) == Some(token.deep_view()),
        _ => token_of(lexeme, None) == Some(token.deep_view()),
    }
}

/// Whether `lexeme` has no token: `read_float` could not read it, or,
/// without a fraction and an exponent, it is no integer, or too large.
pub open spec fn has_no_token<F: Fn(String) -> Option<Float>>(read_float: F, lexeme: Lexeme) -> bool {
    match lexeme {
        Lexeme::Number(text) if written_as_float(text) => exists|written: String|
            written@ == text && #[trigger] call_ensures(read_float, (written,), None),
        _ => token_of(lexeme, None) is None,
    }
}

/// The lexer at work on a text.
pub struct Tokenizer {
    chars: Vec<char>,
}

impl Tokenizer {
    /// The text that the lexer works on.
    pub closed spec fn source(&self) -> Seq<char> {
        self.chars@
    }

    /// A lexer for `source`.
    pub fn new(source: &str) -> (r: Tokenizer)
        ensures
            r.source() == source@,
    {
        Tokenizer { chars: chars_of(source) }
    }

    /// The tokens of the text, one for each lexeme, in order. A number
    /// that is written with a fraction or an exponent is given to
    /// `read_float`, as it is written, for its value.
    ///
    /// Fails if the text cannot be cut into lexemes, or if one of them has
    /// no token.
    pub fn tokenize<F: Fn(String) -> Option<Float>>(self, read_float: F) -> (r: Result<
        Vec<Token>,
        String,
    >)
        requires
            forall|written: String| call_requires(read_float, (written,)),
        ensures
            match lexemes(self.source()) {
                Ok(pieces) => match r {
                    Ok(tokens) => tokens.len() == pieces.len() && forall|i: int|
                        0 <= i < pieces.len() ==> is_token_of(
                            read_float,
                            pieces[i],
                            #[trigger] tokens[i],
                        ),
                    Err(message) => message@ == "a number cannot be read"@ && exists|i: int|
                        0 <= i < pieces.len() && has_no_token(read_float, #[trigger] pieces[i]),
                },
                Err(error) => r matches Err(message) && message@ == description(error),
            },
    {
        let pieces = match scan_chars(&self.chars) {
            Ok(pieces) => pieces,
            Err(e) => {
                return Err(describe(e));
            },
        };
        let ghost cut = pieces.deep_view();
        let mut pieces = pieces;
        let mut final_result: Vec<Token> = Vec::new();
        let count = pieces.len();
        let mut i: usize = 0;
        while i < count
            invariant
                i <= count == pieces.len(),
                cut.len() == count,
                lexemes(self.chars@) == Ok::<Seq<Lexeme>, LexError>(cut),
                forall|written: String| call_requires(read_float, (written,)),
                forall|k: int| i <= k < count ==> (#[trigger] pieces[k]).deep_view() == cut[k],
                final_result.len() == i,
                forall|k: int|
                    0 <= k < i ==> is_token_of(read_float, cut[k], #[trigger] final_result[k]),
            decreases count - i,
        {
            let mut piece = PartialToken::NewLine;
            pieces.set_and_swap(i, &mut piece);
            let ghost lexeme = piece.deep_view();
            assert(lexeme == cut[i as int]);
            let value = match &piece {
                PartialToken::LiteralFloat(text) => {
                    if piece.needs_reader() {
                        let written = text.clone();
                        let value = read_float(written);
                        proof {
                            if value is None {
                                assert(has_no_token(read_float, lexeme));
                            }
                        }
                        value
                    } else {
                        None
                    }
                },
                _ => None,
            };
            if !piece.has_token(value) {
                proof {
                    let found = lexemes(self.source()).unwrap();
                    assert(has_no_token(read_float, found[i as int]));
                }
                return Err("a number cannot be read".to_string());
            }
            let token = piece.to_token(value);
            final_result.push(token);
            i += 1;
        }
        Ok(final_result)
    }
}

/// The tokens of `source`: see [`Tokenizer::tokenize`].
pub fn tokenize<F: Fn(String) -> Option<Float>>(source: &str, read_float: F) -> (r: Result<
    Vec<Token>,
    String,
>)
    requires
        forall|written: String| call_requires(read_float, (written,)),
    ensures
        match lexemes(source@) {
            Ok(pieces) => match r {
                Ok(tokens) => tokens.len() == pieces.len() && forall|i: int|
                    0 <= i < pieces.len() ==> is_token_of(
                        read_float,
                        pieces[i],
                        #[trigger] tokens[i],
                    ),
                Err(message) => message@ == "a number cannot be read"@ && exists|i: int|
                    0 <= i < pieces.len() && has_no_token(read_float, #[trigger] pieces[i]),
            },
            Err(error) => r matches Err(message) && message@ == description(error),
        },
{
    Tokenizer::new(source).tokenize(read_float)
}

/// Whether `c` is the first character of an operator.
pub open spec fn begins_operator(c: char) -> bool {
    c == '+' || c == '-' || c == '*' || c == '/' || c == '%' || c == '<' || c == '>' || c == '!'
        || c == '=' || c == '^' || c == '(' || c == ')'
}

/// Every operator begins with one of the characters that begin operators.
pub proof fn lemma_spelling_heads()
    ensures
        operator_spellings().len() == 17,
        forall|k: int|
            0 <= k < 17 ==> (#[trigger] operator_spellings()[k]).len() >= 1 && begins_operator(
                operator_spellings()[k][0],
            ),
{
    reveal_strlit("+");
    reveal_strlit("-");
    reveal_strlit("*");
    reveal_strlit("/");
    reveal_strlit("%");
    reveal_strlit("<<");
    reveal_strlit(">>");
    reveal_strlit("<=");
    reveal_strlit(">=");
    reveal_strlit(">");
    reveal_strlit("<");
    reveal_strlit("!=");
    reveal_strlit("==");
    reveal_strlit("=");
    reveal_strlit("^");
    reveal_strlit("(");
    reveal_strlit(")");
    let all = operator_spellings();
    assert(begins_operator(all[0][0]) && begins_operator(all[1][0]) && begins_operator(all[2][0])
        && begins_operator(all[3][0]) && begins_operator(all[4][0]) && begins_operator(all[5][0])
        && begins_operator(all[6][0]) && begins_operator(all[7][0]) && begins_operator(all[8][0])
        && begins_operator(all[9][0]) && begins_operator(all[10][0]) && begins_operator(
        all[11][0],
    ) && begins_operator(all[12][0]) && begins_operator(all[13][0]) && begins_operator(all[14][0])
        && begins_operator(all[15][0]) && begins_operator(all[16][0]));
}

/// No operator stands where a character stands that begins none.
pub proof fn lemma_no_operator(chars: Seq<char>, at: int, k: int)
    requires
        0 <= at < chars.len(),
        !begins_operator(chars[at]),
        0 <= k,
    ensures
        operator_from(chars, at, k) is None,
    decreases operator_spellings().len() - k,
{
    lemma_spelling_heads();
    if k < operator_spellings().len() {
        let word = operator_spellings()[k];
        if stands_at(chars, at, word) {
            assert(chars.subrange(at, at + word.len())[0] == word[0]);
        }
        lemma_no_operator(chars, at, k + 1);
    }
}

/// A run of characters that all belong to it ends at the end of the text.
pub proof fn lemma_run_to_end(chars: Seq<char>, from: int, in_run: spec_fn(char) -> bool)
    requires
        0 <= from <= chars.len(),
        forall|k: int| from <= k < chars.len() ==> in_run(#[trigger] chars[k]),
    ensures
        run_end(chars, from, in_run) == chars.len(),
    decreases chars.len() - from,
{
    if from < chars.len() {
        lemma_run_to_end(chars, from + 1, in_run);
    }
}

/// Digits up to the end of a text are cut off as one number.
pub proof fn lemma_digits_cut(chars: Seq<char>, at: int)
    requires
        0 <= at < chars.len(),
        forall|k: int| at <= k < chars.len() ==> digit_value(#[trigger] chars[k]) is Some,
    ensures
        cut_at(chars, at) == Ok::<Cut, LexError>(
            Cut {
                lexemes: seq![Lexeme::Number(chars.subrange(at, chars.len() as int))],
                next: chars.len() as int,
            },
        ),
        !written_as_float(chars.subrange(at, chars.len() as int)),
{
    assert forall|k: int| at <= k < chars.len() implies in_number(#[trigger] chars[k])
        && !begins_operator(chars[k]) && chars[k] != '.' && chars[k] != 'e' by {
        assert(digit_value(chars[k]) is Some);
    }
    let digits = |c: char| in_number(c);
    lemma_run_to_end(chars, at, digits);
    lemma_run_to_end(chars, chars.len() as int, digits);
    lemma_no_operator(chars, at, 0);
    assert(digit_value(chars[at]) is Some);
    assert(number_end(chars, at) == chars.len());
    let text = chars.subrange(at, chars.len() as int);
    assert(!written_as_float(text)) by {
        if text.contains('.') {
            let k = choose|k: int| 0 <= k < text.len() && text[k] == '.';
            assert(chars[at + k] != '.');
        }
        if text.contains('e') {
            let k = choose|k: int| 0 <= k < text.len() && text[k] == 'e';
            assert(chars[at + k] != 'e');
        }
    }
}

/// The digits of a number are one lexeme, and its token is the number:
/// what is written for an integer that is not negative reads as that
/// integer.
pub proof fn lemma_digits_read_back(n: nat)
    ensures
        lexemes(int_text(n as int)) == Ok::<Seq<Lexeme>, LexError>(
            seq![Lexeme::Number(decimal(n))],
        ),
        n <= i128::MAX ==> token_of(Lexeme::Number(decimal(n)), None) == Some(
            TokenView::LiteralInteger(n as i128),
        ),
{
    let chars = decimal(n);
    lemma_decimal_round_trip(n);
    lemma_digits_cut(chars, 0);
    assert(chars.subrange(0, chars.len() as int) =~= chars);
    assert(lexemes_from(chars, chars.len() as int) == Ok::<Seq<Lexeme>, LexError>(Seq::empty()));
    assert(seq![Lexeme::Number(chars)] + Seq::<Lexeme>::empty() =~= seq![Lexeme::Number(chars)]);
}

/// What is written for a negative integer reads as a minus sign in front
/// of the digits of its amount, whose token is the amount.
pub proof fn lemma_negative_reads_back(n: nat)
    requires
        n >= 1,
    ensures
        lexemes(int_text(-(n as int))) == Ok::<Seq<Lexeme>, LexError>(
            seq![Lexeme::Operator("-"@), Lexeme::Number(decimal(n))],
        ),
        operator_token("-"@) == Some(TokenView::Operator(Operator::Minus)),
        n <= i128::MAX ==> token_of(Lexeme::Number(decimal(n)), None) == Some(
            TokenView::LiteralInteger(n as i128),
        ),
{
    reveal_strlit("+");
    reveal_strlit("-");
    let digits = decimal(n);
    let chars = int_text(-(n as int));
    assert(chars == seq!['-'] + digits);
    lemma_decimal_round_trip(n);
    assert forall|k: int| 1 <= k < chars.len() implies digit_value(#[trigger] chars[k]) is Some by {
        assert(chars[k] == digits[k - 1]);
    }
    lemma_digits_cut(chars, 1);
    assert(chars.subrange(1, chars.len() as int) =~= digits);
    assert(operator_spellings()[0] == "+"@ && operator_spellings()[1] == "-"@);
    assert(!stands_at(chars, 0, "+"@)) by {
        if stands_at(chars, 0, "+"@) {
            assert(chars.subrange(0, 1)[0] == "+"@[0]);
        }
    }
    assert(stands_at(chars, 0, "-"@)) by {
        assert(chars.subrange(0, 1) =~= "-"@);
    }
    assert(operator_from(chars, 0, 1) == Some("-"@));
    assert(operator_from(chars, 0, 0) == Some("-"@));
    assert(cut_at(chars, 0) == Ok::<Cut, LexError>(
        Cut { lexemes: seq![Lexeme::Operator("-"@)], next: 1 },
    ));
    assert(lexemes_from(chars, chars.len() as int) == Ok::<Seq<Lexeme>, LexError>(Seq::empty()));
    assert(seq![Lexeme::Number(digits)] + Seq::<Lexeme>::empty() =~= seq![
        Lexeme::Number(digits),
    ]);
    assert(lexemes_from(chars, 1) == Ok::<Seq<Lexeme>, LexError>(seq![Lexeme::Number(digits)]));
    assert(seq![Lexeme::Operator("-"@)] + seq![Lexeme::Number(digits)] =~= seq![
        Lexeme::Operator("-"@),
        Lexeme::Number(digits),
    ]);
}

/// A word of letters is one lexeme.
pub proof fn lemma_word_cut(word: Seq<char>)
    requires
        word.len() >= 1,
        forall|k: int| 0 <= k < word.len() ==> ascii_letter(#[trigger] word[k]),
    ensures
        lexemes(word) == Ok::<Seq<Lexeme>, LexError>(seq![Lexeme::Identifier(word)]),
{
    let letters = |c: char| in_identifier(c);
    lemma_run_to_end(word, 1, letters);
    assert(ascii_letter(word[0]));
    assert(word.subrange(0, word.len() as int) =~= word);
    assert(cut_at(word, 0) == Ok::<Cut, LexError>(
        Cut { lexemes: seq![Lexeme::Identifier(word)], next: word.len() as int },
    ));
    assert(lexemes_from(word, word.len() as int) == Ok::<Seq<Lexeme>, LexError>(Seq::empty()));
    assert(seq![Lexeme::Identifier(word)] + Seq::<Lexeme>::empty() =~= seq![
        Lexeme::Identifier(word),
    ]);
}

/// What is written for the truth values and for `None` reads as them.
pub proof fn lemma_words_read_back()
    ensures
        lexemes("True"@) == Ok::<Seq<Lexeme>, LexError>(seq![Lexeme::Identifier("True"@)]),
        lexemes("False"@) == Ok::<Seq<Lexeme>, LexError>(seq![Lexeme::Identifier("False"@)]),
        lexemes("None"@) == Ok::<Seq<Lexeme>, LexError>(seq![Lexeme::Identifier("None"@)]),
        word_token("True"@) == TokenView::True,
        word_token("False"@) == TokenView::False,
        word_token("None"@) == TokenView::NoneValue,
{
    reveal_strlit("True");
    reveal_strlit("False");
    reveal_strlit("None");
    reveal_strlit("not");
    lemma_word_cut("True"@);
    lemma_word_cut("False"@);
    lemma_word_cut("None"@);
    assert("True"@[0] == 'T' && "None"@[0] == 'N' && "not"@[0] == 'n' && "False"@[0] == 'F');
}

/// Reading a string literal that is written as [`quoted`] writes it: once
/// the first `k` characters of `text` are read, the reading stands behind
/// what was written for them.
proof fn lemma_quoted_prefix(text: Seq<char>, k: nat)
    requires
        k <= text.len(),
    ensures
        quoted_from(quoted(text), 1, '\'', false, Seq::empty()) == quoted_from(
            quoted(text),
            1 + escaped(text, k).len() as int,
            '\'',
            false,
            text.subrange(0, k as int),
        ),
        escaped(text, k).len() <= escaped(text, text.len()).len(),
    decreases k,
{
    let written = quoted(text);
    let body = escaped(text, text.len());
    if k == 0 {
        assert(text.subrange(0, 0) =~= Seq::<char>::empty());
        lemma_escaped_prefix(text, 0);
    } else {
        lemma_quoted_prefix(text, (k - 1) as nat);
        lemma_escaped_prefix(text, k);
        lemma_escaped_prefix(text, (k - 1) as nat);
        let before = escaped(text, (k - 1) as nat);
        let c = text[k - 1];
        let at = 1 + before.len() as int;
        let read = text.subrange(0, k - 1);
        assert(read.push(c) =~= text.subrange(0, k as int));
        if c == '\'' || c == '\\' {
            let this = escaped(text, k);
            assert(this == before.push('\\').push(c));
            assert(this[before.len() as int] == '\\');
            assert(this[before.len() as int + 1] == c);
            assert(body[before.len() as int] == '\\');
            assert(body[before.len() as int + 1] == c);
            assert(written[at] == '\\');
            assert(written[at + 1] == c);
            assert(written.len() == body.len() + 2);
            assert(quoted_from(written, at, '\'', false, read) == quoted_from(
                written,
                at + 1,
                '\'',
                true,
                read,
            ));
            assert(quoted_from(written, at + 1, '\'', true, read) == quoted_from(
                written,
                at + 2,
                '\'',
                false,
                read.push(c),
            ));
        } else {
            let this = escaped(text, k);
            assert(this == before.push(c));
            assert(this[before.len() as int] == c);
            assert(body[before.len() as int] == c);
            assert(written[at] == c);
            assert(written.len() == body.len() + 2);
            assert(quoted_from(written, at, '\'', false, read) == quoted_from(
                written,
                at + 1,
                '\'',
                false,
                read.push(c),
            ));
        }
    }
}

/// What is written for the first `k` characters of a text begins what is
/// written for the text.
proof fn lemma_escaped_prefix(text: Seq<char>, k: nat)
    requires
        k <= text.len(),
    ensures
        escaped(text, k).len() <= escaped(text, text.len()).len(),
        forall|i: int|
            0 <= i < escaped(text, k).len() ==> escaped(text, text.len())[i] == #[trigger] escaped(
                text,
                k,
            )[i],
    decreases text.len() - k,
{
    if k < text.len() {
        lemma_escaped_prefix(text, k + 1);
        let next = escaped(text, k + 1);
        let this = escaped(text, k);
        assert forall|i: int| 0 <= i < this.len() implies escaped(text, text.len())[i]
            == #[trigger] this[i] by {
            assert(next[i] == this[i]);
        }
    }
}

/// What is written for a string reads as that string: the literal is one
/// lexeme, whose text is the string.
pub proof fn lemma_quoted_reads_back(text: Seq<char>)
    ensures
        lexemes(quoted(text)) == Ok::<Seq<Lexeme>, LexError>(seq![Lexeme::Text(text)]),
        token_of(Lexeme::Text(text), None) == Some(TokenView::LiteralString(text)),
{
    let written = quoted(text);
    let body = escaped(text, text.len());
    lemma_quoted_prefix(text, text.len());
    assert(text.subrange(0, text.len() as int) =~= text);
    let end = 1 + body.len();
    assert(written.len() == body.len() + 2);
    assert(written[end as int] == '\'');
    assert(written[0] == '\'');
    assert(quoted_from(written, end as int, '\'', false, text) == Ok::<Quoted, LexError>(
        Quoted { text, end: end as int },
    ));
    assert(cut_at(written, 0) == Ok::<Cut, LexError>(
        Cut { lexemes: seq![Lexeme::Text(text)], next: written.len() as int },
    ));
    assert(lexemes_from(written, written.len() as int) == Ok::<Seq<Lexeme>, LexError>(
        Seq::empty(),
    ));
    assert(seq![Lexeme::Text(text)] + Seq::<Lexeme>::empty() =~= seq![Lexeme::Text(text)]);
}

} // verus!
