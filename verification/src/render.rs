//! Rendering tokens back to text, and the lexer's round trip: re-tokenizing
//! a rendered token sequence yields the sequence back.
//!
//! Rendering writes every token followed by one space, numbers in decimal,
//! so the output lexes unambiguously whatever tokens stand next to each
//! other.

use vstd::prelude::*;

use crate::lexer::{
    lex_from, lex_prepend, num_radix, num_val, spec_digit_val, spec_is_alpha, spec_is_digit,
    LexError,
};
use crate::token::{OpType, Token, TokenModel};

verus! {

// ---------------------------------------------------------------------------
// The rendering model
// ---------------------------------------------------------------------------

/// The decimal digit character of `d` (for `d` in 0..=9).
pub open spec fn digit_char(d: int) -> char {
    if d == 0 {
        '0'
    } else if d == 1 {
        '1'
    } else if d == 2 {
        '2'
    } else if d == 3 {
        '3'
    } else if d == 4 {
        '4'
    } else if d == 5 {
        '5'
    } else if d == 6 {
        '6'
    } else if d == 7 {
        '7'
    } else if d == 8 {
        '8'
    } else {
        '9'
    }
}

/// The decimal digits of `n`, most significant first.
pub open spec fn dec_digits(n: int) -> Seq<char>
    decreases n,
{
    if n < 10 {
        seq![digit_char(n)]
    } else {
        dec_digits(n / 10) + seq![digit_char(n % 10)]
    }
}

/// The text of one token.
pub open spec fn render_token(t: TokenModel) -> Seq<char> {
    match t {
        TokenModel::Number(n) => dec_digits(n as int),
        TokenModel::Op(OpType::Plus) => seq!['+'],
        TokenModel::Op(OpType::Sub) => seq!['-'],
        TokenModel::Op(OpType::Mul) => seq!['*'],
        TokenModel::Op(OpType::Div) => seq!['/'],
        TokenModel::Identifier(id) => id,
        TokenModel::LeftParen => seq!['('],
        TokenModel::RightParen => seq![')'],
    }
}

/// The text of the tokens from index `k` on, each followed by one space.
pub open spec fn render_from(ts: Seq<TokenModel>, k: int) -> Seq<char>
    decreases ts.len() - k,
{
    if k < 0 || k >= ts.len() {
        Seq::empty()
    } else {
        render_token(ts[k]) + seq![' '] + render_from(ts, k + 1)
    }
}

/// A supported token shape: an identifier is nonempty and purely ascii
/// alphabetic, exactly what the lexer can produce.
pub open spec fn wf_token(t: TokenModel) -> bool {
    match t {
        TokenModel::Identifier(id) => id.len() > 0 && (forall|k: int|
            0 <= k < id.len() ==> spec_is_alpha(#[trigger] id[k])),
        _ => true,
    }
}

/// Every token of the sequence has a supported shape.
pub open spec fn wf_tokens(ts: Seq<TokenModel>) -> bool {
    forall|k: int| 0 <= k < ts.len() ==> wf_token(#[trigger] ts[k])
}

// ---------------------------------------------------------------------------
// Executable rendering
// ---------------------------------------------------------------------------

fn digit_char_of(d: u64) -> (c: char)
    requires
        d < 10,
    ensures
        c == digit_char(d as int),
{
    if d == 0 {
        '0'
    } else if d == 1 {
        '1'
    } else if d == 2 {
        '2'
    } else if d == 3 {
        '3'
    } else if d == 4 {
        '4'
    } else if d == 5 {
        '5'
    } else if d == 6 {
        '6'
    } else if d == 7 {
        '7'
    } else if d == 8 {
        '8'
    } else {
        '9'
    }
}

/// Appends the decimal digits of `n`.
fn push_dec(n: u64, out: &mut Vec<char>)
    ensures
        final(out)@ == old(out)@ + dec_digits(n as int),
    decreases n,
{
    if n >= 10 {
        push_dec(n / 10, out);
        out.push(digit_char_of(n % 10));
        proof {
            assert(out@ =~= old(out)@ + dec_digits(n as int));
        }
    } else {
        out.push(digit_char_of(n));
        proof {
            assert(out@ =~= old(out)@ + dec_digits(n as int));
        }
    }
}

/// Appends the characters of `s`.
fn push_chars(s: &String, out: &mut Vec<char>)
    ensures
        final(out)@ == old(out)@ + s@,
{
    let n = s.as_str().unicode_len();
    let mut k: usize = 0;
    while k < n
        invariant
            k <= n == s@.len(),
            out@ == old(out)@ + s@.subrange(0, k as int),
        decreases n - k,
    {
        out.push(s.as_str().get_char(k));
        proof {
            assert(out@ =~= old(out)@ + s@.subrange(0, k + 1 as int));
        }
        k = k + 1;
    }
    proof {
        assert(out@ =~= old(out)@ + s@);
    }
}

/// Renders a token sequence to text, one space after every token: exactly
/// the model [`render_from`] gives from the first token on.
pub fn render_tokens(tokens: &Vec<Token>) -> (r: Vec<char>)
    ensures
        r@ == render_from(tokens.deep_view(), 0),
{
    let ghost ts = tokens.deep_view();
    let mut r: Vec<char> = Vec::new();
    let n = tokens.len();
    let mut k: usize = 0;
    while k < n
        invariant
            k <= n == tokens@.len(),
            ts == tokens.deep_view(),
            render_from(ts, 0) == r@ + render_from(ts, k as int),
        decreases n - k,
    {
        let ghost r_old = r@;
        match &tokens[k] {
            Token::Number(num) => push_dec(*num, &mut r),
            Token::Op(OpType::Plus) => r.push('+'),
            Token::Op(OpType::Sub) => r.push('-'),
            Token::Op(OpType::Mul) => r.push('*'),
            Token::Op(OpType::Div) => r.push('/'),
            Token::Identifier(id) => push_chars(id, &mut r),
            Token::LeftParen => r.push('('),
            Token::RightParen => r.push(')'),
        }
        proof {
            assert(r@ =~= r_old + render_token(ts[k as int]));
        }
        r.push(' ');
        proof {
            assert(r@ =~= r_old + (render_token(ts[k as int]) + seq![' ']));
            assert((r_old + (render_token(ts[k as int]) + seq![' '])) + render_from(ts, k + 1)
                =~= r_old + (render_token(ts[k as int]) + seq![' '] + render_from(ts, k + 1)));
        }
        k = k + 1;
    }
    proof {
        assert(r@ + Seq::<char>::empty() =~= r@);
    }
    r
}

// ---------------------------------------------------------------------------
// The round trip
// ---------------------------------------------------------------------------

/// Decimal digits are nonempty, all decimal, and lead with `0` only for the
/// value zero.
proof fn lemma_dec_digits_props(n: int)
    requires
        0 <= n,
    ensures
        dec_digits(n).len() >= 1,
        forall|k: int| 0 <= k < dec_digits(n).len() ==> spec_is_digit(#[trigger] dec_digits(n)[k], 10),
        n >= 1 ==> spec_digit_val(dec_digits(n)[0]) >= 1,
    decreases n,
{
    if n >= 10 {
        lemma_dec_digits_props(n / 10);
        assert(n / 10 >= 1);
        assert(dec_digits(n)[0] == dec_digits(n / 10)[0]);
    }
}

/// A digit run's value only depends on the characters under it, wherever
/// they sit.
proof fn lemma_num_val_shift(s: Seq<char>, d: Seq<char>, i: int, p: int, len: int, acc: int)
    requires
        0 <= p <= len,
        forall|m: int| p <= m < len ==> s[i + m] == #[trigger] d[m],
    ensures
        num_val(s, i + p, i + len, 10, acc) == num_val(d, p, len, 10, acc),
    decreases len - p,
{
    if p < len {
        lemma_num_val_shift(s, d, i, p + 1, len, acc * 10 + spec_digit_val(d[p]));
    }
}

/// Reading the decimal digits of `n` back in base 10 yields `n`.
proof fn lemma_dec_digits_val(n: int)
    requires
        0 <= n,
    ensures
        num_val(dec_digits(n), 0, dec_digits(n).len() as int, 10, 0) == n,
    decreases n,
{
    let d = dec_digits(n);
    if n < 10 {
        assert(num_val(d, 0, 1, 10, 0) == num_val(d, 1, 1, 10, spec_digit_val(d[0])));
    } else {
        lemma_dec_digits_val(n / 10);
        let p = dec_digits(n / 10);
        let pl = p.len() as int;
        assert(forall|m: int| 0 <= m < pl ==> d[0 + m] == #[trigger] p[m]);
        lemma_num_val_shift(d, p, 0, 0, pl, 0);
        crate::lexer::lemma_num_val_snoc(d, 0, pl, 10, 0);
        assert(d[pl] == digit_char(n % 10));
        assert(num_val(d, 0, pl + 1, 10, 0) == (n / 10) * 10 + (n % 10));
    }
}

/// Splits the suffix of `s` at `i` along one rendered token and its
/// following space.
proof fn lemma_suffix_split(s: Seq<char>, i: int, head: Seq<char>, rest: Seq<char>)
    requires
        0 <= i <= s.len(),
        s.subrange(i, s.len() as int) == head + seq![' '] + rest,
    ensures
        i + head.len() + 1 <= s.len(),
        forall|m: int| 0 <= m < head.len() ==> s[i + m] == #[trigger] head[m],
        s[i + head.len()] == ' ',
        s.subrange(i + head.len() as int + 1, s.len() as int) == rest,
{
    let tail = s.subrange(i, s.len() as int);
    assert(tail.len() == head.len() + 1 + rest.len());
    assert forall|m: int| 0 <= m < head.len() implies s[i + m] == #[trigger] head[m] by {
        assert(tail[m] == s[i + m]);
    }
    assert(tail[head.len() as int] == s[i + head.len()]);
    assert forall|q: int| 0 <= q < rest.len() implies s.subrange(
        i + head.len() as int + 1,
        s.len() as int,
    )[q] == #[trigger] rest[q] by {
        assert(tail[head.len() + 1 + q] == s[i + head.len() + 1 + q]);
    }
    assert(s.subrange(i + head.len() as int + 1, s.len() as int) =~= rest);
}

/// Lexing a rendered token sequence from token `k` on yields exactly the
/// tokens from `k` on.
proof fn lemma_lex_render_from(ts: Seq<TokenModel>, k: int, s: Seq<char>, i: int)
    requires
        wf_tokens(ts),
        0 <= k <= ts.len(),
        0 <= i <= s.len(),
        s.subrange(i, s.len() as int) == render_from(ts, k),
    ensures
        lex_from(s, i) == Ok::<Seq<TokenModel>, LexError>(ts.subrange(k, ts.len() as int)),
    decreases ts.len() - k,
{
    if k >= ts.len() {
        assert(s.subrange(i, s.len() as int).len() == 0);
        assert(i == s.len());
        assert(ts.subrange(k, ts.len() as int) =~= Seq::<TokenModel>::empty());
    } else {
        let t = ts[k];
        let head = render_token(t);
        let hlen = head.len() as int;
        let rest = render_from(ts, k + 1);
        assert(s.subrange(i, s.len() as int) == head + seq![' '] + rest);
        lemma_suffix_split(s, i, head, rest);
        match t {
            TokenModel::Number(n) => {
                let d = dec_digits(n as int);
                lemma_dec_digits_props(n as int);
                assert(s[i] == d[0]);
                assert(spec_is_digit(s[i], 10));
                if n == 0 {
                    assert(s[i + 1] == ' ');
                    assert(num_radix(s, i) == 10);
                } else {
                    assert(spec_digit_val(s[i]) >= 1);
                    assert(s[i] != '0');
                    assert(num_radix(s, i) == 10);
                }
                assert forall|m: int| i + 1 <= m < i + hlen implies spec_is_digit(
                    #[trigger] s[m],
                    10,
                ) by {
                    assert(s[m] == head[m - i]);
                }
                assert(!spec_is_digit(s[i + hlen], 10));
                crate::lexer::lemma_num_end_is(s, i + 1, i + hlen, 10);
                lemma_dec_digits_val(n as int);
                lemma_num_val_shift(s, d, i, 1, hlen, spec_digit_val(d[0]));
                assert(num_val(d, 0, hlen, 10, 0) == num_val(d, 1, hlen, 10, spec_digit_val(d[0])));
                assert(num_val(s, i + 1, i + hlen, 10, spec_digit_val(s[i])) == n as int);
                assert(lex_from(s, i) == lex_prepend(
                    seq![TokenModel::Number(n)],
                    lex_from(s, i + hlen),
                ));
            },
            TokenModel::Op(op) => {
                assert(s[i] == head[0]);
                match op {
                    OpType::Plus => {
                        assert(lex_from(s, i) == lex_prepend(
                            seq![TokenModel::Op(OpType::Plus)],
                            lex_from(s, i + 1),
                        ));
                    },
                    OpType::Sub => {
                        assert(lex_from(s, i) == lex_prepend(
                            seq![TokenModel::Op(OpType::Sub)],
                            lex_from(s, i + 1),
                        ));
                    },
                    OpType::Mul => {
                        assert(lex_from(s, i) == lex_prepend(
                            seq![TokenModel::Op(OpType::Mul)],
                            lex_from(s, i + 1),
                        ));
                    },
                    OpType::Div => {
                        assert(lex_from(s, i) == lex_prepend(
                            seq![TokenModel::Op(OpType::Div)],
                            lex_from(s, i + 1),
                        ));
                    },
                }
            },
            TokenModel::LeftParen => {
                assert(s[i] == head[0]);
                assert(s[i] == '(');
                assert(lex_from(s, i) == lex_prepend(
                    seq![TokenModel::LeftParen],
                    lex_from(s, i + 1),
                ));
            },
            TokenModel::RightParen => {
                assert(s[i] == head[0]);
                assert(s[i] == ')');
                assert(lex_from(s, i) == lex_prepend(
                    seq![TokenModel::RightParen],
                    lex_from(s, i + 1),
                ));
            },
            TokenModel::Identifier(id) => {
                assert(s[i] == id[0]);
                assert(spec_is_alpha(s[i]));
                assert(!spec_is_digit(s[i], 10));
                assert forall|m: int| i + 1 <= m < i + hlen implies spec_is_alpha(
                    #[trigger] s[m],
                ) by {
                    assert(s[m] == head[m - i]);
                }
                assert(!spec_is_alpha(s[i + hlen]));
                crate::lexer::lemma_ident_end_is(s, i + 1, i + hlen);
                assert(s.subrange(i, i + hlen) =~= id);
                assert(lex_from(s, i) == lex_prepend(
                    seq![TokenModel::Identifier(id)],
                    lex_from(s, i + hlen),
                ));
            },
        }
        assert(lex_from(s, i) == lex_prepend(seq![t], lex_from(s, i + hlen)));
        assert(s[i + hlen] == ' ');
        assert(!spec_is_digit(' ', 10));
        assert(!spec_is_alpha(' '));
        assert(lex_from(s, i + hlen) == lex_from(s, i + hlen + 1));
        lemma_lex_render_from(ts, k + 1, s, i + hlen + 1);
        assert(seq![t] + ts.subrange(k + 1, ts.len() as int) =~= ts.subrange(k, ts.len() as int));
    }
}

/// The tokenizer round trip: rendering any sequence of supported tokens to
/// text and lexing the text back yields an equal sequence — whitespace, here
/// the space after each token, is the only thing lost.
pub proof fn lemma_tokens_round_trip(ts: Seq<TokenModel>)
    requires
        wf_tokens(ts),
    ensures
        lex_from(render_from(ts, 0), 0) == Ok::<Seq<TokenModel>, LexError>(ts),
{
    let s = render_from(ts, 0);
    assert(s.subrange(0, s.len() as int) =~= s);
    lemma_lex_render_from(ts, 0, s, 0);
    assert(ts.subrange(0, ts.len() as int) =~= ts);
}

} // verus!
