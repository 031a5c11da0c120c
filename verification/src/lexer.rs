//! The lexer: a single left-to-right scan that turns raw text into tokens.
//!
//! Number literals are radix-aware unsigned integers: a leading `0` followed
//! by `x`/`o`/`b` (either case) selects base 16/8/2, anything else keeps the
//! scan decimal.  Characters that start no token (whitespace, punctuation)
//! are silently discarded.  The only failure is a literal whose value does
//! not fit the 64-bit accumulator.

use vstd::prelude::*;

use crate::token::{OpType, Token, TokenModel};

verus! {

/// The lexer's only error: a number literal whose value cannot be
/// represented by the 64-bit accumulator.
#[derive(Clone, Copy, Debug, PartialEq, Eq, Structural)]
pub enum LexError {
    NumberTooLarge,
}

// ---------------------------------------------------------------------------
// Character classes
// ---------------------------------------------------------------------------

/// The numeric value a character denotes as a digit, or 36 when it can be a
/// digit in no radix up to 36.
pub open spec fn spec_digit_val(c: char) -> int {
    if '0' as u32 <= c as u32 && c as u32 <= '9' as u32 {
        c as u32 - '0' as u32
    } else if 'a' as u32 <= c as u32 && c as u32 <= 'z' as u32 {
        10 + (c as u32 - 'a' as u32)
    } else if 'A' as u32 <= c as u32 && c as u32 <= 'Z' as u32 {
        10 + (c as u32 - 'A' as u32)
    } else {
        36
    }
}

/// Whether `c` is a digit of the given radix.
pub open spec fn spec_is_digit(c: char, radix: u32) -> bool {
    spec_digit_val(c) < radix
}

/// Whether `c` is an ascii alphabetic character (identifiers are made of
/// exactly these).
pub open spec fn spec_is_alpha(c: char) -> bool {
    ('a' as u32 <= c as u32 && c as u32 <= 'z' as u32) || ('A' as u32 <= c as u32 && c as u32
        <= 'Z' as u32)
}

fn digit_val(c: char) -> (d: u32)
    ensures
        d as int == spec_digit_val(c),
{
    let v = c as u32;
    if '0' as u32 <= v && v <= '9' as u32 {
        v - '0' as u32
    } else if 'a' as u32 <= v && v <= 'z' as u32 {
        10 + (v - 'a' as u32)
    } else if 'A' as u32 <= v && v <= 'Z' as u32 {
        10 + (v - 'A' as u32)
    } else {
        36
    }
}

fn is_digit(c: char, radix: u32) -> (b: bool)
    ensures
        b == spec_is_digit(c, radix),
{
    digit_val(c) < radix
}

fn is_alpha(c: char) -> (b: bool)
    ensures
        b == spec_is_alpha(c),
{
    let v = c as u32;
    ('a' as u32 <= v && v <= 'z' as u32) || ('A' as u32 <= v && v <= 'Z' as u32)
}

// ---------------------------------------------------------------------------
// Number literals
// ---------------------------------------------------------------------------

/// First position at or after `i` that holds no digit of `radix` (the end of
/// a digit run).
pub open spec fn num_end(s: Seq<char>, i: int, radix: u32) -> int
    decreases s.len() - i,
{
    if i < 0 || i >= s.len() || !spec_is_digit(s[i], radix) {
        i
    } else {
        num_end(s, i + 1, radix)
    }
}

/// Value of the digit run `s[i..j]` read in `radix`, starting from the
/// accumulator `acc` (most significant digits first).
pub open spec fn num_val(s: Seq<char>, i: int, j: int, radix: u32, acc: int) -> int
    decreases j - i,
{
    if i >= j {
        acc
    } else {
        num_val(s, i + 1, j, radix, acc * radix + spec_digit_val(s[i]))
    }
}

/// The radix a number literal starting at `i` selects: a leading `0`
/// followed by a radix letter switches the base, anything else stays decimal.
pub open spec fn num_radix(s: Seq<char>, i: int) -> u32 {
    if s[i] == '0' && i + 1 < s.len() {
        if s[i + 1] == 'x' || s[i + 1] == 'X' {
            16u32
        } else if s[i + 1] == 'o' || s[i + 1] == 'O' {
            8u32
        } else if s[i + 1] == 'b' || s[i + 1] == 'B' {
            2u32
        } else {
            10u32
        }
    } else {
        10u32
    }
}

/// Position where the digit run of a literal starting at `i` begins: past the
/// radix prefix when one was recognized, past the leading digit otherwise.
pub open spec fn num_body(s: Seq<char>, i: int) -> int {
    if num_radix(s, i) != 10 {
        i + 2
    } else {
        i + 1
    }
}

/// The accumulator the digit run starts from: the leading digit's value when
/// no radix prefix was recognized, zero otherwise.
pub open spec fn num_acc0(s: Seq<char>, i: int) -> int {
    if num_radix(s, i) != 10 {
        0
    } else {
        spec_digit_val(s[i])
    }
}

// ---------------------------------------------------------------------------
// Identifiers
// ---------------------------------------------------------------------------

/// First position at or after `i` that holds no ascii alphabetic character.
pub open spec fn ident_end(s: Seq<char>, i: int) -> int
    decreases s.len() - i,
{
    if i < 0 || i >= s.len() || !spec_is_alpha(s[i]) {
        i
    } else {
        ident_end(s, i + 1)
    }
}

// ---------------------------------------------------------------------------
// The lexer itself
// ---------------------------------------------------------------------------

/// Prepends already-produced tokens to the outcome of lexing the rest.
pub open spec fn lex_prepend(
    pre: Seq<TokenModel>,
    r: Result<Seq<TokenModel>, LexError>,
) -> Result<Seq<TokenModel>, LexError> {
    match r {
        Ok(rest) => Ok(pre + rest),
        Err(e) => Err(e),
    }
}

/// The token sequence the text `s` denotes from position `i` on, or the
/// lexer's error.  This is the mathematical model [`tokenize`] is proved
/// against.
pub open spec fn lex_from(s: Seq<char>, i: int) -> Result<Seq<TokenModel>, LexError>
    decreases s.len() - i,
    via lex_from_decreases
{
    if i < 0 || i >= s.len() {
        Ok(Seq::empty())
    } else {
        let c = s[i];
        if spec_is_digit(c, 10) {
            let radix = num_radix(s, i);
            let body = num_body(s, i);
            let end = num_end(s, body, radix);
            let v = num_val(s, body, end, radix, num_acc0(s, i));
            if v > u64::MAX {
                Err(LexError::NumberTooLarge)
            } else {
                lex_prepend(seq![TokenModel::Number(v as u64)], lex_from(s, end))
            }
        } else if c == '+' {
            lex_prepend(seq![TokenModel::Op(OpType::Plus)], lex_from(s, i + 1))
        } else if c == '-' {
            lex_prepend(seq![TokenModel::Op(OpType::Sub)], lex_from(s, i + 1))
        } else if c == '*' {
            lex_prepend(seq![TokenModel::Op(OpType::Mul)], lex_from(s, i + 1))
        } else if c == '/' {
            lex_prepend(seq![TokenModel::Op(OpType::Div)], lex_from(s, i + 1))
        } else if c == '(' {
            lex_prepend(seq![TokenModel::LeftParen], lex_from(s, i + 1))
        } else if c == ')' {
            lex_prepend(seq![TokenModel::RightParen], lex_from(s, i + 1))
        } else if spec_is_alpha(c) {
            let end = ident_end(s, i + 1);
            lex_prepend(seq![TokenModel::Identifier(s.subrange(i, end))], lex_from(s, end))
        } else {
            lex_from(s, i + 1)
        }
    }
}

#[via_fn]
proof fn lex_from_decreases(s: Seq<char>, i: int) {
    if 0 <= i < s.len() {
        let c = s[i];
        if spec_is_digit(c, 10) {
            lemma_num_end_bounds(s, num_body(s, i), num_radix(s, i));
        } else if spec_is_alpha(c) {
            lemma_ident_end_bounds(s, i + 1);
        }
    }
}

/// A digit run's end never lies before its start nor past the text's end.
pub proof fn lemma_num_end_bounds(s: Seq<char>, i: int, radix: u32)
    requires
        0 <= i <= s.len(),
    ensures
        i <= num_end(s, i, radix) <= s.len(),
    decreases s.len() - i,
{
    if i < s.len() && spec_is_digit(s[i], radix) {
        lemma_num_end_bounds(s, i + 1, radix);
    }
}

/// Everything before a digit run's end is a digit, and the run ends at the
/// text's end or at the first non-digit.
pub proof fn lemma_num_end_chars(s: Seq<char>, i: int, radix: u32)
    requires
        0 <= i <= s.len(),
    ensures
        forall|k: int| i <= k < num_end(s, i, radix) ==> spec_is_digit(#[trigger] s[k], radix),
        num_end(s, i, radix) == s.len() || !spec_is_digit(s[num_end(s, i, radix)], radix),
    decreases s.len() - i,
{
    if i < s.len() && spec_is_digit(s[i], radix) {
        lemma_num_end_chars(s, i + 1, radix);
    }
}

/// A position that closes a digit run is exactly `num_end`.
pub proof fn lemma_num_end_is(s: Seq<char>, i: int, j: int, radix: u32)
    requires
        0 <= i <= j <= s.len(),
        forall|k: int| i <= k < j ==> spec_is_digit(#[trigger] s[k], radix),
        j == s.len() || !spec_is_digit(s[j], radix),
    ensures
        num_end(s, i, radix) == j,
    decreases j - i,
{
    if i < j {
        lemma_num_end_is(s, i + 1, j, radix);
    }
}

/// Reading one more digit multiplies the run's value by the radix and adds
/// the digit.
pub proof fn lemma_num_val_snoc(s: Seq<char>, i: int, j: int, radix: u32, acc: int)
    requires
        i <= j,
    ensures
        num_val(s, i, j + 1, radix, acc) == num_val(s, i, j, radix, acc) * radix + spec_digit_val(
            s[j],
        ),
    decreases j - i,
{
    if i < j {
        lemma_num_val_snoc(s, i + 1, j, radix, acc * radix + spec_digit_val(s[i]));
    } else {
        assert(num_val(s, j, j + 1, radix, acc) == num_val(
            s,
            j + 1,
            j + 1,
            radix,
            acc * radix + spec_digit_val(s[j]),
        ));
        assert(num_val(s, j + 1, j + 1, radix, acc * radix + spec_digit_val(s[j])) == acc * radix
            + spec_digit_val(s[j]));
        assert(num_val(s, j, j, radix, acc) == acc);
    }
}

/// A digit run's value never falls below the accumulator it starts from.
pub proof fn lemma_num_val_ge_acc(s: Seq<char>, i: int, j: int, radix: u32, acc: int)
    requires
        radix >= 1,
        acc >= 0,
    ensures
        num_val(s, i, j, radix, acc) >= acc,
    decreases j - i,
{
    if i < j {
        assert(acc * radix >= acc * 1) by (nonlinear_arith)
            requires
                radix >= 1,
                acc >= 0,
        ;
        lemma_num_val_ge_acc(s, i + 1, j, radix, acc * radix + spec_digit_val(s[i]));
    }
}

/// Bounds of the identifier scan.
pub proof fn lemma_ident_end_bounds(s: Seq<char>, i: int)
    requires
        0 <= i <= s.len(),
    ensures
        i <= ident_end(s, i) <= s.len(),
    decreases s.len() - i,
{
    if i < s.len() && spec_is_alpha(s[i]) {
        lemma_ident_end_bounds(s, i + 1);
    }
}

/// Everything before an identifier's end is alphabetic, and the identifier
/// ends at the text's end or at the first non-letter.
pub proof fn lemma_ident_end_chars(s: Seq<char>, i: int)
    requires
        0 <= i <= s.len(),
    ensures
        forall|k: int| i <= k < ident_end(s, i) ==> spec_is_alpha(#[trigger] s[k]),
        ident_end(s, i) == s.len() || !spec_is_alpha(s[ident_end(s, i)]),
    decreases s.len() - i,
{
    if i < s.len() && spec_is_alpha(s[i]) {
        lemma_ident_end_chars(s, i + 1);
    }
}

/// A position that closes a letter run is exactly `ident_end`.
pub proof fn lemma_ident_end_is(s: Seq<char>, i: int, j: int)
    requires
        0 <= i <= j <= s.len(),
        forall|k: int| i <= k < j ==> spec_is_alpha(#[trigger] s[k]),
        j == s.len() || !spec_is_alpha(s[j]),
    ensures
        ident_end(s, i) == j,
    decreases j - i,
{
    if i < j {
        lemma_ident_end_is(s, i + 1, j);
    }
}

proof fn lemma_prepend_prepend(
    pre: Seq<TokenModel>,
    mid: Seq<TokenModel>,
    r: Result<Seq<TokenModel>, LexError>,
)
    ensures
        lex_prepend(pre, lex_prepend(mid, r)) == lex_prepend(pre + mid, r),
{
    match r {
        Ok(rest) => {
            assert(pre + (mid + rest) =~= (pre + mid) + rest);
        },
        Err(_) => {},
    }
}

/// Collects the characters of `text` into a vector.
fn chars_of(text: &str) -> (v: Vec<char>)
    ensures
        v@ == text@,
{
    let n = text.unicode_len();
    let mut v: Vec<char> = Vec::new();
    let mut i: usize = 0;
    while i < n
        invariant
            n == text@.len(),
            i <= n,
            v@ == text@.subrange(0, i as int),
        decreases n - i,
    {
        v.push(text.get_char(i));
        assert(v@ =~= text@.subrange(0, i + 1 as int));
        i = i + 1;
    }
    assert(v@ =~= text@);
    v
}

/// Splits `text` into tokens, or reports a literal whose value cannot be
/// represented.  The result is exactly the model [`lex_from`] gives for the
/// whole text.
pub fn tokenize(text: &str) -> (r: Result<Vec<Token>, LexError>)
    ensures
        ({
            let m = lex_from(text@, 0);
            match r {
                Ok(tokens) => m matches Ok(ms) && ms == tokens.deep_view(),
                Err(e) => m matches Err(me) && me == e,
            }
        }),
{
    let s = chars_of(text);
    let n = s.len();
    let mut tokens: Vec<Token> = Vec::new();
    let mut i: usize = 0;
    while i < n
        invariant
            s@ == text@,
            n == s@.len(),
            i <= n,
            lex_from(text@, 0) == lex_prepend(tokens.deep_view(), lex_from(text@, i as int)),
        decreases n - i,
    {
        let ghost pre = tokens.deep_view();
        let c = s[i];
        if is_digit(c, 10) {
            // A number literal: pick the radix, then accumulate digits.
            let mut radix: u32 = 10;
            let mut j = i + 1;
            if c == '0' && j < n {
                let p = s[j];
                if p == 'x' || p == 'X' {
                    radix = 16;
                } else if p == 'o' || p == 'O' {
                    radix = 8;
                } else if p == 'b' || p == 'B' {
                    radix = 2;
                }
                if radix != 10 {
                    j = j + 1;
                }
            }
            assert(radix == num_radix(text@, i as int));
            assert(j == num_body(text@, i as int));
            let mut acc: u64 = if radix != 10 {
                0
            } else {
                digit_val(c) as u64
            };
            assert(acc as int == num_acc0(text@, i as int));
            let ghost body = j as int;
            let ghost acc0 = acc as int;
            let ghost end = num_end(text@, body, radix);
            let ghost total = num_val(text@, body, end, radix, acc0);
            proof {
                lemma_num_end_bounds(text@, body, radix);
                lemma_num_end_chars(text@, body, radix);
            }
            let mut overflow = false;
            loop
                invariant_except_break
                    !overflow,
                    s@ == text@,
                    n == s@.len(),
                    0 <= body <= j as int <= end <= n,
                    2 <= radix <= 16,
                    end == num_end(text@, body, radix),
                    total == num_val(text@, body, end, radix, acc0),
                    acc0 >= 0,
                    acc as int == num_val(text@, body, j as int, radix, acc0),
                    forall|k: int| body <= k < end ==> spec_is_digit(#[trigger] text@[k], radix),
                    end == n || !spec_is_digit(text@[end as int], radix),
                ensures
                    overflow ==> total > u64::MAX,
                    !overflow ==> j as int == end && acc as int == total,
                decreases end - j,
            {
                if j >= n {
                    break ;
                }
                let d = s[j];
                if !is_digit(d, radix) {
                    break ;
                }
                assert((j as int) < end);
                let dv = digit_val(d);
                proof {
                    lemma_num_val_snoc(text@, body, j as int, radix, acc0);
                }
                let step = match acc.checked_mul(radix as u64) {
                    Some(x) => x.checked_add(dv as u64),
                    None => None,
                };
                match step {
                    Some(x) => {
                        acc = x;
                        j = j + 1;
                    },
                    None => {
                        proof {
                            lemma_num_val_split_overflow(text@, body, j as int, end, radix, acc0);
                        }
                        overflow = true;
                        break ;
                    },
                }
            }
            if overflow {
                return Err(LexError::NumberTooLarge);
            }
            assert(j as int == end);
            assert(total <= u64::MAX);
            tokens.push(Token::Number(acc));
            proof {
                assert(tokens.deep_view() =~= pre + seq![TokenModel::Number(acc)]);
                assert(lex_from(text@, i as int) == lex_prepend(
                    seq![TokenModel::Number(acc)],
                    lex_from(text@, end),
                ));
                lemma_prepend_prepend(
                    pre,
                    seq![TokenModel::Number(acc)],
                    lex_from(text@, end),
                );
            }
            i = j;
        } else if c == '+' || c == '-' || c == '*' || c == '/' {
            let tok = if c == '+' {
                Token::Op(OpType::Plus)
            } else if c == '-' {
                Token::Op(OpType::Sub)
            } else if c == '*' {
                Token::Op(OpType::Mul)
            } else {
                Token::Op(OpType::Div)
            };
            let ghost tm = tok@;
            tokens.push(tok);
            proof {
                assert(tokens.deep_view() =~= pre + seq![tm]);
                lemma_prepend_prepend(pre, seq![tm], lex_from(text@, i + 1));
            }
            i = i + 1;
        } else if c == '(' {
            tokens.push(Token::LeftParen);
            proof {
                assert(tokens.deep_view() =~= pre + seq![TokenModel::LeftParen]);
                lemma_prepend_prepend(pre, seq![TokenModel::LeftParen], lex_from(text@, i + 1));
            }
            i = i + 1;
        } else if c == ')' {
            tokens.push(Token::RightParen);
            proof {
                assert(tokens.deep_view() =~= pre + seq![TokenModel::RightParen]);
                lemma_prepend_prepend(pre, seq![TokenModel::RightParen], lex_from(text@, i + 1));
            }
            i = i + 1;
        } else if is_alpha(c) {
            let mut j = i + 1;
            proof {
                lemma_ident_end_bounds(text@, i + 1);
                lemma_ident_end_chars(text@, i + 1);
            }
            let ghost end = ident_end(text@, i + 1);
            loop
                invariant
                    s@ == text@,
                    n == s@.len(),
                    i < j as int <= end <= n,
                    end == ident_end(text@, i + 1),
                    forall|k: int| i + 1 <= k < end ==> spec_is_alpha(#[trigger] text@[k]),
                    end == n || !spec_is_alpha(text@[end as int]),
                ensures
                    j as int == end,
                decreases end - j,
            {
                if j >= n {
                    break ;
                }
                if !is_alpha(s[j]) {
                    break ;
                }
                assert((j as int) < end);
                j = j + 1;
            }
            let id = text.substring_char(i, j).to_owned();
            let ghost tm = TokenModel::Identifier(text@.subrange(i as int, j as int));
            tokens.push(Token::Identifier(id));
            proof {
                assert(tokens.deep_view() =~= pre + seq![tm]);
                lemma_prepend_prepend(pre, seq![tm], lex_from(text@, j as int));
            }
            i = j;
        } else {
            // Any other character is silently discarded.
            i = i + 1;
        }
    }
    proof {
        assert(tokens.deep_view() + Seq::<TokenModel>::empty() =~= tokens.deep_view());
    }
    Ok(tokens)
}

/// When one accumulation step overflows, the run's total value cannot be
/// represented either.
proof fn lemma_num_val_split_overflow(s: Seq<char>, i: int, k: int, j: int, radix: u32, acc0: int)
    requires
        0 <= i <= k < j <= s.len(),
        radix >= 1,
        acc0 >= 0,
        num_val(s, i, k, radix, acc0) * radix + spec_digit_val(s[k]) > u64::MAX,
    ensures
        num_val(s, i, j, radix, acc0) > u64::MAX,
{
    lemma_num_val_nonneg(s, i, k, radix, acc0);
    let stepped = num_val(s, i, k, radix, acc0) * radix + spec_digit_val(s[k]);
    lemma_num_val_split(s, i, k + 1, j, radix, acc0);
    assert(num_val(s, i, k + 1, radix, acc0) == stepped) by {
        lemma_num_val_snoc(s, i, k, radix, acc0);
    }
    lemma_num_val_ge_acc(s, k + 1, j, radix, stepped);
}

/// A digit run's value stays non-negative.
proof fn lemma_num_val_nonneg(s: Seq<char>, i: int, j: int, radix: u32, acc: int)
    requires
        radix >= 1,
        acc >= 0,
    ensures
        num_val(s, i, j, radix, acc) >= 0,
{
    lemma_num_val_ge_acc(s, i, j, radix, acc);
}

/// Accumulation over a split run composes.
proof fn lemma_num_val_split(s: Seq<char>, i: int, k: int, j: int, radix: u32, acc: int)
    requires
        i <= k <= j,
    ensures
        num_val(s, i, j, radix, acc) == num_val(s, k, j, radix, num_val(s, i, k, radix, acc)),
    decreases k - i,
{
    if i < k {
        lemma_num_val_split(s, i + 1, k, j, radix, acc * radix + spec_digit_val(s[i]));
    }
}

} // verus!
