use crate::ast::{Expr, ExprKind, Lit, LitModel};
use crate::error::ParseError;
use crate::token::{tokens_view, Tok, Token};
use vstd::prelude::*;

verus! {

/// Whether `c` is one of the ten ASCII digits.
pub open spec fn is_digit(c: char) -> bool {
    48 <= c as u32 && c as u32 <= 57
}

/// The number that an ASCII digit stands for.
pub open spec fn digit_value(c: char) -> int {
    c as u32 - 48
}

/// The text with every `_` taken out.
pub open spec fn strip_separators(text: Seq<char>) -> Seq<char> {
    text.filter(|c: char| c != '_')
}

/// Whether every character of `s` is an ASCII digit.
pub open spec fn all_digits(s: Seq<char>) -> bool {
    forall|i: int| 0 <= i < s.len() ==> is_digit(#[trigger] s[i])
}

/// The number that a sequence of digits spells in base ten.
pub open spec fn decimal_value(s: Seq<char>) -> int
    decreases s.len(),
{
    if s.len() == 0 {
        0
    } else {
        10 * decimal_value(s.drop_last()) + digit_value(s.last())
    }
}

/// The value of an integer literal's text: once the separators are gone, the
/// text must be one or more digits that spell a number no greater than
/// `i32::MAX`.
pub open spec fn int_text_value(text: Seq<char>) -> Option<i32> {
    let digits = strip_separators(text);
    if digits.len() > 0 && all_digits(digits) && decimal_value(digits) <= i32::MAX {
        Some(decimal_value(digits) as i32)
    } else {
        None
    }
}

/// The literal rule at `pos`: an integer literal with a valid text, or a
/// string literal, whose text is taken as it is.
pub open spec fn spec_literal(ts: Seq<Tok>, pos: int) -> Result<LitModel, ParseError> {
    if pos >= ts.len() {
        Err(ParseError::UnexpectedEnd)
    } else {
        match ts[pos] {
            Tok::Int(text) => match int_text_value(text) {
                Some(n) => Ok(LitModel::Int(n as int)),
                None => Err(ParseError::MalformedLiteral { at: pos as usize }),
            },
            Tok::Str(text) => Ok(LitModel::Str(text)),
            _ => Err(ParseError::UnexpectedToken { at: pos as usize }),
        }
    }
}

proof fn lemma_strip_step(s: Seq<char>, i: int)
    requires
        0 <= i < s.len(),
    ensures
        strip_separators(s.take(i + 1)) == if s[i] != '_' {
            strip_separators(s.take(i)).push(s[i])
        } else {
            strip_separators(s.take(i))
        },
{
    reveal(Seq::filter);
    assert(s.take(i + 1).drop_last() =~= s.take(i));
}

proof fn lemma_decimal_value_grows(a: Seq<char>, b: Seq<char>)
    requires
        all_digits(b),
        decimal_value(a) >= 0,
    ensures
        decimal_value(a + b) >= decimal_value(a),
    decreases b.len(),
{
    if b.len() == 0 {
        assert(a + b =~= a);
    } else {
        assert((a + b).drop_last() =~= a + b.drop_last());
        assert(is_digit(b[b.len() - 1]));
        lemma_decimal_value_grows(a, b.drop_last());
    }
}

proof fn lemma_decimal_value_bounds(s: Seq<char>)
    requires
        all_digits(s),
    ensures
        decimal_value(s) >= 0,
    decreases s.len(),
{
    if s.len() > 0 {
        assert(is_digit(s[s.len() - 1]));
        lemma_decimal_value_bounds(s.drop_last());
    }
}

/// A text has no value once a prefix of it, stripped, holds a character that
/// is no digit or spells a number above `i32::MAX`.
proof fn lemma_bad_prefix(s: Seq<char>, k: int)
    requires
        0 <= k <= s.len(),
        !all_digits(strip_separators(s.take(k))) || decimal_value(strip_separators(s.take(k)))
            > i32::MAX,
    ensures
        int_text_value(s) is None,
{
    let head = strip_separators(s.take(k));
    let tail = strip_separators(s.skip(k));
    assert(s.take(k) + s.skip(k) =~= s);
    Seq::filter_distributes_over_add(s.take(k), s.skip(k), |c: char| c != '_');
    assert(strip_separators(s) == head + tail);
    if all_digits(strip_separators(s)) {
        assert forall|i: int| 0 <= i < head.len() implies is_digit(#[trigger] head[i]) by {
            assert(head[i] == (head + tail)[i]);
        }
        assert forall|i: int| 0 <= i < tail.len() implies is_digit(#[trigger] tail[i]) by {
            assert(tail[i] == (head + tail)[head.len() + i]);
        }
        lemma_decimal_value_grows(head, tail);
    }
}

proof fn lemma_valid_char_is_ascii(c: char)
    requires
        is_digit(c) || c == '_',
    ensures
        '\0' <= c <= '\u{7f}',
{
}

proof fn lemma_valid_text_is_ascii(text: Seq<char>)
    requires
        digits_and_separators(text),
    ensures
        vstd::utf8::is_ascii_chars(text),
{
    assert forall|i: int| 0 <= i < text.len() implies '\0' <= #[trigger] text[i] <= '\u{7f}' by {
        assert(is_digit(text[i]) || text[i] == '_');
        lemma_valid_char_is_ascii(text[i]);
    }
}

/// Reads the text of an integer literal: the `_` separators are skipped and
/// the rest is read as a decimal number. `None` where the rest is empty,
/// holds a character that is no ASCII digit, or exceeds `i32::MAX`.
pub fn parse_int_text(text: &str) -> (r: Option<i32>)
    ensures
        r == int_text_value(text@),
{
    if !text.is_ascii() {
        proof {
            if digits_and_separators(text@) {
                lemma_valid_text_is_ascii(text@);
            }
            lemma_int_text_law(text@);
        }
        return None;
    }
    let bytes = text.as_bytes();
    proof {
        vstd::string::is_ascii_spec_bytes(text);
    }
    let n = bytes.len();
    let mut i: usize = 0;
    let mut acc: i32 = 0;
    let mut seen: bool = false;
    while i < n
        invariant
            n == text@.len(),
            n == bytes@.len(),
            i <= n,
            vstd::string::is_ascii(text),
            forall|k: int| 0 <= k < n ==> bytes@[k] == #[trigger] text@[k] as u8,
            all_digits(strip_separators(text@.take(i as int))),
            seen == (strip_separators(text@.take(i as int)).len() > 0),
            acc == decimal_value(strip_separators(text@.take(i as int))),
            0 <= acc,
        decreases n - i,
    {
        let b: u8 = bytes[i];
        let ghost c = text@[i as int];
        proof {
            lemma_strip_step(text@, i as int);
            assert(b == c as u8);
            assert(c as u32 == b as u32);
        }
        if b != 95 {
            let ghost before = strip_separators(text@.take(i as int));
            assert(before.push(c).drop_last() =~= before);
            if b < 48 || b > 57 {
                proof {
                    assert(!is_digit(before.push(c)[before.len() as int]));
                    lemma_bad_prefix(text@, i + 1);
                }
                return None;
            }
            let wide: i64 = (acc as i64) * 10 + ((b - 48) as i64);
            if wide > i32::MAX as i64 {
                proof {
                    lemma_bad_prefix(text@, i + 1);
                }
                return None;
            }
            acc = wide as i32;
            seen = true;
        }
        i += 1;
    }
    assert(text@.take(n as int) =~= text@);
    if seen {
        Some(acc)
    } else {
        None
    }
}

/// Whether the text is made of ASCII digits and `_` alone.
pub open spec fn digits_and_separators(text: Seq<char>) -> bool {
    forall|i: int| 0 <= i < text.len() ==> is_digit(#[trigger] text[i]) || text[i] == '_'
}

/// What every integer literal text comes to. A text made of digits and `_`
/// alone, with at least one digit, whose digits spell a number within
/// `i32::MAX`, has that number as its value. A text that holds any other
/// character, or whose digits spell a larger number, has none.
pub proof fn lemma_int_text_law(text: Seq<char>)
    ensures
        digits_and_separators(text) && strip_separators(text).len() > 0 && decimal_value(
            strip_separators(text),
        ) <= i32::MAX ==> 0 <= decimal_value(strip_separators(text)) && int_text_value(text)
            == Some(decimal_value(strip_separators(text)) as i32),
        !digits_and_separators(text) ==> int_text_value(text) is None,
        decimal_value(strip_separators(text)) > i32::MAX ==> int_text_value(text) is None,
{
    let keep = |c: char| c != '_';
    let digits = strip_separators(text);
    if digits_and_separators(text) {
        assert forall|j: int| 0 <= j < digits.len() implies is_digit(#[trigger] digits[j]) by {
            lemma_filter_member(text, j);
        }
        lemma_decimal_value_bounds(digits);
    } else {
        let i = choose|i: int| 0 <= i < text.len() && !(is_digit(#[trigger] text[i]) || text[i] == '_');
        assert(keep(text[i]));
        text.lemma_filter_contains(keep, i);
        assert(digits.contains(text[i]));
    }
}

/// What the literal rule makes of every integer literal token: the integer
/// that its text spells, where the text is valid, and a malformed literal
/// at the token's position, where the text holds a character that is
/// neither digit nor `_` or spells a number above `i32::MAX`.
pub proof fn lemma_int_literal_law(ts: Seq<Tok>, pos: int, text: Seq<char>)
    requires
        0 <= pos < ts.len(),
        ts[pos] == Tok::Int(text),
    ensures
        digits_and_separators(text) && strip_separators(text).len() > 0 && decimal_value(
            strip_separators(text),
        ) <= i32::MAX ==> spec_literal(ts, pos) == Ok::<LitModel, ParseError>(
            LitModel::Int(decimal_value(strip_separators(text))),
        ),
        !digits_and_separators(text) || decimal_value(strip_separators(text)) > i32::MAX
            ==> spec_literal(ts, pos) == Err::<LitModel, ParseError>(
            ParseError::MalformedLiteral { at: pos as usize },
        ),
{
    lemma_int_text_law(text);
}

/// Every character of the stripped text is a character of the text.
proof fn lemma_filter_member(text: Seq<char>, j: int)
    requires
        0 <= j < strip_separators(text).len(),
    ensures
        text.contains(strip_separators(text)[j]),
    decreases text.len(),
{
    reveal(Seq::filter);
    if text.len() > 0 {
        let front = text.drop_last();
        if j < strip_separators(front).len() {
            lemma_filter_member(front, j);
            let k = choose|k: int| 0 <= k < front.len() && front[k] == strip_separators(front)[j];
            assert(text[k] == front[k]);
        } else {
            assert(text[text.len() - 1] == text.last());
        }
    }
}

/// The literal rule: reads the token at `pos` as a literal expression and
/// gives the position after it. An integer literal whose text has no value
/// is a malformed literal, not an unexpected token.
pub fn parse_literal(tokens: &[Token], pos: usize) -> (r: Result<(Expr, usize), ParseError>)
    ensures
        match spec_literal(tokens_view(tokens@), pos as int) {
            Ok(lit) => r is Ok && r->Ok_0.0@ == lit && r->Ok_0.1 == pos + 1,
            Err(e) => r == Err::<(Expr, usize), ParseError>(e),
        },
{
    if pos >= tokens.len() {
        return Err(ParseError::UnexpectedEnd);
    }
    match &tokens[pos] {
        Token::Int(text) => match parse_int_text(text.as_str()) {
            Some(n) => Ok((Expr { kind: ExprKind::Lit(Lit::Int(n)) }, pos + 1)),
            None => Err(ParseError::MalformedLiteral { at: pos }),
        },
        Token::Str(text) => Ok((Expr { kind: ExprKind::Lit(Lit::Str(text.clone())) }, pos + 1)),
        _ => Err(ParseError::UnexpectedToken { at: pos }),
    }
}

} // verus!
