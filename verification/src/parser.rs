//! The parser: token sequence to expression tree, recursive over windows
//! (index pairs) into one immutable token buffer.
//!
//! A window of length one must be a literal or an identifier.  A longer
//! window is first stripped of an enclosing parenthesis pair, then split at
//! the weakest-binding, rightmost top-level operator; splitting at the
//! rightmost operator of equal precedence is what makes the tree
//! left-associative.  A window without a top-level operator must have the
//! function-call shape `identifier ( … )`, whose name is resolved in the
//! caller's function table at parse time.

use vstd::prelude::*;

use crate::error::{ErrorModel, InvalidExpressionError};
use crate::expr::{expr_wf, Expr, ExprModel, Function, Op};
use crate::token::{Token, TokenModel};

verus! {

// ---------------------------------------------------------------------------
// Scanning for a matching parenthesis
// ---------------------------------------------------------------------------

/// Position in `[i, end)` where the running bracket depth, starting at
/// `depth`, first goes negative: the close matching an opener just before
/// `i` (at depth 0).  `None` when the window ends first.
pub open spec fn scan_close(t: Seq<TokenModel>, i: int, end: int, depth: int) -> Option<int>
    decreases end - i,
{
    if i < 0 || i >= end {
        None
    } else {
        let d = match t[i] {
            TokenModel::LeftParen => depth + 1,
            TokenModel::RightParen => depth - 1,
            _ => depth,
        };
        if d < 0 {
            Some(i)
        } else {
            scan_close(t, i + 1, end, d)
        }
    }
}

/// A found close lies inside the scanned window.
pub proof fn lemma_scan_close_bounds(t: Seq<TokenModel>, i: int, end: int, depth: int)
    ensures
        scan_close(t, i, end, depth) matches Some(j) ==> i <= j < end,
    decreases end - i,
{
    if 0 <= i < end {
        lemma_scan_close_bounds(t, i + 1, end, ({
            match t[i] {
                TokenModel::LeftParen => depth + 1,
                TokenModel::RightParen => depth - 1,
                _ => depth,
            }
        }));
    }
}

// ---------------------------------------------------------------------------
// Scanning for the split operator
// ---------------------------------------------------------------------------

/// One left-to-right scan of `[i, end)` keeping the best split so far: the
/// position `idx` of the last operator whose precedence was at most `prec`
/// (so the weakest-binding, rightmost top-level operator wins).  Bracketed
/// runs are skipped whole; an unclosed opener is the scan's error, carrying
/// the last token of the window (if the opener was not the last token).
pub open spec fn op_scan(t: Seq<TokenModel>, i: int, end: int, idx: int, prec: int) -> Result<
    (int, int),
    ErrorModel,
>
    decreases end - i,
    via op_scan_decreases
{
    if i < 0 || i >= end {
        Ok((idx, prec))
    } else {
        match t[i] {
            TokenModel::Op(op) => if op.spec_precedence() <= prec {
                op_scan(t, i + 1, end, i, op.spec_precedence())
            } else {
                op_scan(t, i + 1, end, idx, prec)
            },
            TokenModel::LeftParen => match scan_close(t, i + 1, end, 0) {
                Some(j) => op_scan(t, j + 1, end, idx, prec),
                None => Err(
                    ErrorModel::NoMatchingToken {
                        start: TokenModel::LeftParen,
                        end: if i + 1 < end {
                            Some(t[end - 1])
                        } else {
                            None
                        },
                    },
                ),
            },
            _ => op_scan(t, i + 1, end, idx, prec),
        }
    }
}

#[via_fn]
proof fn op_scan_decreases(t: Seq<TokenModel>, i: int, end: int, idx: int, prec: int) {
    if 0 <= i < end {
        lemma_scan_close_bounds(t, i + 1, end, 0);
    }
}

/// What a successful scan hands back: either the starting candidate
/// untouched, or a real operator position inside the window.
pub proof fn lemma_op_scan_found(t: Seq<TokenModel>, i: int, end: int, idx: int, prec: int)
    requires
        i <= end,
    ensures
        op_scan(t, i, end, idx, prec) matches Ok(found) ==> ((found.0 == idx && found.1 == prec)
            || (i <= found.0 < end && (t[found.0] matches TokenModel::Op(o)
            && o.spec_precedence() == found.1))),
    decreases end - i,
{
    if 0 <= i < end {
        match t[i] {
            TokenModel::Op(op) => {
                if op.spec_precedence() <= prec {
                    lemma_op_scan_found(t, i + 1, end, i, op.spec_precedence());
                } else {
                    lemma_op_scan_found(t, i + 1, end, idx, prec);
                }
            },
            TokenModel::LeftParen => {
                lemma_scan_close_bounds(t, i + 1, end, 0);
                if let Some(j) = scan_close(t, i + 1, end, 0) {
                    lemma_op_scan_found(t, j + 1, end, idx, prec);
                }
            },
            _ => {
                lemma_op_scan_found(t, i + 1, end, idx, prec);
            },
        }
    }
}

// ---------------------------------------------------------------------------
// Function-name resolution
// ---------------------------------------------------------------------------

/// Index of the first name equal to `name` at or after `i`.
pub open spec fn fun_index_from(funs: Seq<Seq<char>>, name: Seq<char>, i: int) -> Option<int>
    decreases funs.len() - i,
{
    if i < 0 || i >= funs.len() {
        None
    } else if funs[i] == name {
        Some(i)
    } else {
        fun_index_from(funs, name, i + 1)
    }
}

/// Index of the first function named `name` in the table.
pub open spec fn fun_index(funs: Seq<Seq<char>>, name: Seq<char>) -> Option<int> {
    fun_index_from(funs, name, 0)
}

/// A found index lies inside the table and names `name`.
pub proof fn lemma_fun_index_bounds(funs: Seq<Seq<char>>, name: Seq<char>, i: int)
    ensures
        fun_index_from(funs, name, i) matches Some(k) ==> i <= k < funs.len() && funs[k] == name,
    decreases funs.len() - i,
{
    if 0 <= i < funs.len() && funs[i] != name {
        lemma_fun_index_bounds(funs, name, i + 1);
    }
}

// ---------------------------------------------------------------------------
// The parser's model
// ---------------------------------------------------------------------------

/// The expression the window `[start, end)` of `t` denotes against the
/// function table `funs`, or the parser's error.  This is the mathematical
/// model [`parse`] is proved against.
pub open spec fn parse_spec(t: Seq<TokenModel>, start: int, end: int, funs: Seq<Seq<char>>) -> Result<
    ExprModel,
    ErrorModel,
>
    decreases end - start, 1int,
{
    if end - start == 1 {
        match t[start] {
            TokenModel::Number(num) => Ok(ExprModel::Value(num)),
            TokenModel::Identifier(v) => Ok(ExprModel::Variable(v)),
            _ => Err(
                ErrorModel::InvalidToken {
                    expected: "Token::Number | Token::Identifier"@,
                    found: Some(t[start]),
                },
            ),
        }
    } else if start < end && t[start] is LeftParen {
        match scan_close(t, start + 1, end, 0) {
            None => Err(
                ErrorModel::NoMatchingToken {
                    start: TokenModel::LeftParen,
                    end: if start + 1 < end {
                        Some(t[end - 1])
                    } else {
                        None
                    },
                },
            ),
            Some(j) => if j == end - 1 {
                parse_spec(t, start + 1, end - 1, funs)
            } else {
                parse_split(t, start, end, funs)
            },
        }
    } else {
        parse_split(t, start, end, funs)
    }
}

/// The operator-split stage: the weakest-binding rightmost top-level
/// operator splits the window; a window without one must be a function call.
pub open spec fn parse_split(t: Seq<TokenModel>, start: int, end: int, funs: Seq<Seq<char>>) -> Result<
    ExprModel,
    ErrorModel,
>
    decreases end - start, 0int,
    via parse_split_decreases
{
    match op_scan(t, start, end, start, i32::MAX as int) {
        Err(e) => Err(e),
        Ok(found) => if found.1 == i32::MAX as int {
            if end - start >= 3 && t[start] is Identifier && t[start + 1] is LeftParen && t[end
                - 1] is RightParen {
                match t[start] {
                    TokenModel::Identifier(id) => match fun_index(funs, id) {
                        Some(f) => match parse_spec(t, start + 2, end - 1, funs) {
                            Ok(arg) => Ok(ExprModel::Function(f as usize, Box::new(arg))),
                            Err(e) => Err(e),
                        },
                        None => Err(ErrorModel::UnknownFunction(id)),
                    },
                    _ => Err(ErrorModel::AmbiguousOperation(t.subrange(start, end))),
                }
            } else {
                Err(ErrorModel::AmbiguousOperation(t.subrange(start, end)))
            }
        } else {
            match t[found.0] {
                TokenModel::Op(op) => match parse_spec(t, start, found.0, funs) {
                    Err(e) => Err(e),
                    Ok(lhs) => match parse_spec(t, found.0 + 1, end, funs) {
                        Err(e) => Err(e),
                        Ok(rhs) => Ok(ExprModel::Operation(op, Box::new(lhs), Box::new(rhs))),
                    },
                },
                _ => Err(ErrorModel::AmbiguousOperation(t.subrange(start, end))),
            }
        },
    }
}

#[via_fn]
proof fn parse_split_decreases(t: Seq<TokenModel>, start: int, end: int, funs: Seq<Seq<char>>) {
    if 0 <= start <= end {
        lemma_op_scan_found(t, start, end, start, i32::MAX as int);
    }
}

/// Every function index a parse resolves lies below the table's length.
pub proof fn lemma_parse_wf(t: Seq<TokenModel>, start: int, end: int, funs: Seq<Seq<char>>)
    ensures
        parse_spec(t, start, end, funs) matches Ok(e) ==> expr_wf(e, funs.len()),
    decreases end - start, 1int,
{
    if end - start == 1 {
    } else if start < end && t[start] is LeftParen {
        match scan_close(t, start + 1, end, 0) {
            Some(j) => {
                if j == end - 1 {
                    lemma_parse_wf(t, start + 1, end - 1, funs);
                } else {
                    lemma_parse_split_wf(t, start, end, funs);
                }
            },
            None => {},
        }
    } else {
        lemma_parse_split_wf(t, start, end, funs);
    }
}

proof fn lemma_parse_split_wf(t: Seq<TokenModel>, start: int, end: int, funs: Seq<Seq<char>>)
    ensures
        parse_split(t, start, end, funs) matches Ok(e) ==> expr_wf(e, funs.len()),
    decreases end - start, 0int,
{
    if 0 <= start <= end {
        lemma_op_scan_found(t, start, end, start, i32::MAX as int);
    }
    match op_scan(t, start, end, start, i32::MAX as int) {
        Ok(found) => {
            if found.1 == i32::MAX as int {
                if end - start >= 3 && t[start] is Identifier && t[start + 1] is LeftParen && t[end
                    - 1] is RightParen {
                    match t[start] {
                        TokenModel::Identifier(id) => {
                            lemma_fun_index_bounds(funs, id, 0);
                            lemma_parse_wf(t, start + 2, end - 1, funs);
                        },
                        _ => {},
                    }
                }
            } else {
                if t[found.0] is Op {
                    lemma_parse_wf(t, start, found.0, funs);
                    lemma_parse_wf(t, found.0 + 1, end, funs);
                }
            }
        },
        Err(_) => {},
    }
}

/// Parsing is a mathematical function of the token sequence and the function
/// table: any two outcomes the parser's contract admits on equal inputs are
/// equal — parsing the same token sequence twice yields structurally equal
/// trees.
pub proof fn lemma_parse_deterministic(
    t: Seq<TokenModel>,
    funs: Seq<Seq<char>>,
    r1: Result<ExprModel, ErrorModel>,
    r2: Result<ExprModel, ErrorModel>,
)
    requires
        r1 == parse_spec(t, 0, t.len() as int, funs),
        r2 == parse_spec(t, 0, t.len() as int, funs),
    ensures
        r1 == r2,
{
}

// ---------------------------------------------------------------------------
// Executable helpers
// ---------------------------------------------------------------------------

/// Scans `[from, end)` for the close matching an opener just before `from`.
fn find_close(tokens: &Vec<Token>, from: usize, end: usize) -> (r: Option<usize>)
    requires
        from <= end <= tokens@.len(),
    ensures
        match r {
            Some(j) => scan_close(tokens.deep_view(), from as int, end as int, 0) == Some(j as int)
                && from <= j < end,
            None => scan_close(tokens.deep_view(), from as int, end as int, 0) is None,
        },
{
    let ghost t = tokens.deep_view();
    let mut i = from;
    let mut depth: usize = 0;
    while i < end
        invariant
            from <= i <= end <= tokens@.len(),
            t == tokens.deep_view(),
            scan_close(t, from as int, end as int, 0) == scan_close(
                t,
                i as int,
                end as int,
                depth as int,
            ),
            depth <= i - from,
        decreases end - i,
    {
        match &tokens[i] {
            Token::LeftParen => {
                depth = depth + 1;
            },
            Token::RightParen => {
                if depth == 0 {
                    return Some(i);
                }
                depth = depth - 1;
            },
            _ => {},
        }
        i = i + 1;
    }
    None
}

/// Looks `name` up in the function table; the first match wins.
fn fun_lookup(functions: &Vec<String>, name: &String) -> (r: Option<usize>)
    ensures
        match r {
            Some(k) => fun_index(functions.deep_view(), name@) == Some(k as int) && k
                < functions@.len(),
            None => fun_index(functions.deep_view(), name@) is None,
        },
{
    let ghost funs = functions.deep_view();
    let n = functions.len();
    let mut k: usize = 0;
    while k < n
        invariant
            k <= n == functions@.len(),
            funs == functions.deep_view(),
            fun_index(funs, name@) == fun_index_from(funs, name@, k as int),
        decreases n - k,
    {
        if functions[k] == *name {
            return Some(k);
        }
        k = k + 1;
    }
    None
}

/// Clones the window `[start, end)` of the token buffer.
fn clone_range(tokens: &Vec<Token>, start: usize, end: usize) -> (r: Vec<Token>)
    requires
        start <= end <= tokens@.len(),
    ensures
        r.deep_view() == tokens.deep_view().subrange(start as int, end as int),
{
    let mut r: Vec<Token> = Vec::new();
    let mut k = start;
    while k < end
        invariant
            start <= k <= end <= tokens@.len(),
            r@.len() == k - start,
            forall|m: int| 0 <= m < r@.len() ==> #[trigger] r@[m]@ == tokens@[start + m]@,
        decreases end - k,
    {
        r.push(tokens[k].clone());
        k = k + 1;
    }
    assert(r.deep_view() =~= tokens.deep_view().subrange(start as int, end as int));
    r
}

// ---------------------------------------------------------------------------
// The parser
// ---------------------------------------------------------------------------

/// Parses the window `[start, end)` of the token buffer.
fn parse_range(tokens: &Vec<Token>, start: usize, end: usize, functions: &Vec<String>) -> (r:
    Result<Expr, InvalidExpressionError>)
    requires
        start <= end <= tokens@.len(),
    ensures
        ({
            let m = parse_spec(
                tokens.deep_view(),
                start as int,
                end as int,
                functions.deep_view(),
            );
            match r {
                Ok(e) => m matches Ok(em) && em == e@,
                Err(err) => m matches Err(errm) && errm == err@,
            }
        }),
    decreases end - start,
{
    let ghost t = tokens.deep_view();
    let ghost funs = functions.deep_view();
    if end - start == 1 {
        return match &tokens[start] {
            Token::Number(num) => Ok(Expr::Value(*num)),
            Token::Identifier(v) => Ok(Expr::Variable(v.clone())),
            other => Err(
                InvalidExpressionError::InvalidToken {
                    expected: "Token::Number | Token::Identifier",
                    found: Some(other.clone()),
                },
            ),
        };
    }
    // If the window is wrapped in a parenthesis pair, remove it; an opener
    // without a close inside the window is an error even when nothing is
    // stripped.
    let starts_open = if start < end {
        match &tokens[start] {
            Token::LeftParen => true,
            _ => false,
        }
    } else {
        false
    };
    if starts_open {
        match find_close(tokens, start + 1, end) {
            None => {
                let last = if start + 1 < end {
                    Some(tokens[end - 1].clone())
                } else {
                    None
                };
                return Err(
                    InvalidExpressionError::NoMatchingToken { start: Token::LeftParen, end: last },
                );
            },
            Some(j) => {
                if j == end - 1 {
                    return parse_range(tokens, start + 1, end - 1, functions);
                }
            },
        }
    }
    // Find the weakest-binding, rightmost top-level operator.
    assert(parse_spec(t, start as int, end as int, funs) == parse_split(
        t,
        start as int,
        end as int,
        funs,
    ));
    let mut idx: usize = start;
    let mut prec: i32 = i32::MAX;
    let mut i = start;
    while i < end
        invariant
            start <= i <= end <= tokens@.len(),
            t == tokens.deep_view(),
            funs == functions.deep_view(),
            parse_spec(t, start as int, end as int, funs) == parse_split(
                t,
                start as int,
                end as int,
                funs,
            ),
            op_scan(t, start as int, end as int, start as int, i32::MAX as int) == op_scan(
                t,
                i as int,
                end as int,
                idx as int,
                prec as int,
            ),
            prec == i32::MAX ==> idx == start,
            prec != i32::MAX ==> start <= idx < i && (t[idx as int] matches TokenModel::Op(o)
                && o.spec_precedence() == prec),
        decreases end - i,
    {
        match &tokens[i] {
            Token::Op(op) => {
                let p = op.precedence();
                if p <= prec {
                    idx = i;
                    prec = p;
                }
                i = i + 1;
            },
            Token::LeftParen => {
                // Parenthesized runs bind tighter by definition: skip them.
                match find_close(tokens, i + 1, end) {
                    Some(j) => {
                        i = j + 1;
                    },
                    None => {
                        let last = if i + 1 < end {
                            Some(tokens[end - 1].clone())
                        } else {
                            None
                        };
                        return Err(
                            InvalidExpressionError::NoMatchingToken {
                                start: Token::LeftParen,
                                end: last,
                            },
                        );
                    },
                }
            },
            _ => {
                i = i + 1;
            },
        }
    }
    if prec == i32::MAX {
        // No top-level operator: the window must be a function call.
        if end - start >= 3 {
            let shape = match &tokens[start + 1] {
                Token::LeftParen => match &tokens[end - 1] {
                    Token::RightParen => true,
                    _ => false,
                },
                _ => false,
            };
            match &tokens[start] {
                Token::Identifier(id) => {
                    if shape {
                        match fun_lookup(functions, id) {
                            Some(f) => match parse_range(tokens, start + 2, end - 1, functions) {
                                Ok(arg) => Ok(
                                    Expr::Function(Function { arg: Box::new(arg), fun: f }),
                                ),
                                Err(e) => Err(e),
                            },
                            None => Err(InvalidExpressionError::UnknownFunction(id.clone())),
                        }
                    } else {
                        Err(
                            InvalidExpressionError::AmbiguousOperation(
                                clone_range(tokens, start, end),
                            ),
                        )
                    }
                },
                _ => Err(
                    InvalidExpressionError::AmbiguousOperation(clone_range(tokens, start, end)),
                ),
            }
        } else {
            Err(InvalidExpressionError::AmbiguousOperation(clone_range(tokens, start, end)))
        }
    } else {
        proof {
            lemma_op_scan_found(t, start as int, end as int, start as int, i32::MAX as int);
        }
        match &tokens[idx] {
            Token::Op(op) => {
                let op = *op;
                let lhs = match parse_range(tokens, start, idx, functions) {
                    Ok(e) => e,
                    Err(e) => {
                        return Err(e);
                    },
                };
                let rhs = match parse_range(tokens, idx + 1, end, functions) {
                    Ok(e) => e,
                    Err(e) => {
                        return Err(e);
                    },
                };
                Ok(Expr::Operation(Op::new(op, Box::new(lhs), Box::new(rhs))))
            },
            _ => Err(InvalidExpressionError::AmbiguousOperation(clone_range(tokens, start, end))),
        }
    }
}

/// Parses a token sequence against a function-name table.  The result is
/// exactly the model [`parse_spec`] gives for the whole sequence; in
/// particular every error case — an invalid single token, an unclosed
/// parenthesis, an unknown function name, a window with neither operator nor
/// call shape — comes exactly when the model says so.  Every call node of a
/// parsed tree carries an index below the table's length
/// ([`lemma_parse_wf`]), so a host backed by the same table never sees an
/// index out of range.
pub fn parse(tokens: &Vec<Token>, functions: &Vec<String>) -> (r: Result<
    Expr,
    InvalidExpressionError,
>)
    ensures
        ({
            let m = parse_spec(
                tokens.deep_view(),
                0,
                tokens@.len() as int,
                functions.deep_view(),
            );
            match r {
                Ok(e) => m matches Ok(em) && em == e@,
                Err(err) => m matches Err(errm) && errm == err@,
            }
        }),
{
    parse_range(tokens, 0, tokens.len(), functions)
}

} // verus!
