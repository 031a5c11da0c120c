//! An arithmetic expression engine with a braille dot-matrix plotter.
//!
//! Text enters the lexer and becomes a flat token sequence; the parser turns
//! the sequence into an abstract syntax tree by locating the weakest-binding,
//! rightmost top-level operator; the evaluator walks the tree against a set of
//! variable bindings.  Numeric values are carried opaquely as 64-bit scalars:
//! the embedding front end chooses their encoding and supplies the arithmetic
//! through the [`ScalarHost`](eval::ScalarHost) trait, so every structural
//! decision the engine makes is verified while the host keeps its own number
//! semantics (IEEE-754 doubles in the shipped front end).

pub mod bindings;
pub mod error;
pub mod eval;
pub mod expr;
pub mod graph;
pub mod inspect_err;
pub mod lexer;
pub mod parser;
pub mod render;
pub mod token;

pub use bindings::Bindings;
pub use error::InvalidExpressionError;
pub use eval::Scalar;
pub use eval::ScalarHost;
pub use expr::Expr;
pub use expr::Function;
pub use expr::Op;
pub use graph::plot_cells;
pub use graph::plot_range;
pub use graph::sample_curve;
pub use graph::DotCell;
pub use inspect_err::InspectErr;
pub use lexer::tokenize;
pub use lexer::LexError;
pub use parser::parse;
pub use render::render_tokens;
pub use token::OpType;
pub use token::Token;
