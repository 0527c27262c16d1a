//! Front end of the Lligne language: a scanner that turns source text into a
//! compact token stream, a token filter that rewrites documentation tokens
//! into leading/trailing positions, and a Pratt parser that folds the token
//! stream into an expression tree.

pub mod text;
pub mod token_types;
pub mod tokens;
pub mod expressions;
pub mod leading_trailing_documentation;
pub mod parser;
pub mod scanner;
pub mod shared_vec;
pub mod source_pos;
