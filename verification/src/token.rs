//! Tokens: the smallest lexical units an expression is made of.

use vstd::prelude::*;

verus! {

/// The four arithmetic operators.
#[derive(Clone, Copy, Debug, PartialEq, Eq, Structural)]
pub enum OpType {
    Plus,
    Sub,
    Mul,
    Div,
}

impl OpType {
    /// Precedence as a mathematical value; higher binds tighter.
    pub open spec fn spec_precedence(self) -> int {
        match self {
            OpType::Plus => 1,
            OpType::Sub => 1,
            OpType::Mul => 2,
            OpType::Div => 2,
        }
    }

    /// Return operator precedence, where a higher precedence means computation
    /// happens earlier.
    pub fn precedence(&self) -> (p: i32)
        ensures
            p == self.spec_precedence(),
    {
        match *self {
            OpType::Plus => 1,
            OpType::Sub => 1,
            OpType::Mul => 2,
            OpType::Div => 2,
        }
    }
}

/// A lexical token.  A number literal is a radix-aware unsigned integer; the
/// host decides how literals embed into its scalar domain at evaluation time.
#[derive(Debug, PartialEq)]
pub enum Token {
    Number(u64),
    Op(OpType),
    Identifier(String),
    LeftParen,
    RightParen,
}

impl Clone for Token {
    /// Cloning keeps the token's model.
    fn clone(&self) -> (r: Self)
        ensures
            r@ == self@,
    {
        match self {
            Token::Number(n) => Token::Number(*n),
            Token::Op(op) => Token::Op(*op),
            Token::Identifier(id) => Token::Identifier(id.clone()),
            Token::LeftParen => Token::LeftParen,
            Token::RightParen => Token::RightParen,
        }
    }
}

/// The mathematical model of a token: identifiers become character sequences.
pub enum TokenModel {
    Number(u64),
    Op(OpType),
    Identifier(Seq<char>),
    LeftParen,
    RightParen,
}

impl View for Token {
    type V = TokenModel;

    open spec fn view(&self) -> TokenModel {
        match self {
            Token::Number(n) => TokenModel::Number(*n),
            Token::Op(op) => TokenModel::Op(*op),
            Token::Identifier(id) => TokenModel::Identifier(id@),
            Token::LeftParen => TokenModel::LeftParen,
            Token::RightParen => TokenModel::RightParen,
        }
    }
}

impl DeepView for Token {
    type V = TokenModel;

    open spec fn deep_view(&self) -> TokenModel {
        self.view()
    }
}

} // verus!
