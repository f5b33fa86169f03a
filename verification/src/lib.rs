//! Reader for the parenthesised AST dump that a compiler front-end prints:
//! a tokenizer, a tree builder and an extractor of type records, each with a
//! machine-checked contract.
//!
//! The dump is a sequence of nodes of the form `( tag attr* child* )`. An
//! attribute is a quoted string, a `key=value` pair or a bare word; a child
//! is a node again. A node of the form `(Original init: (..))` wraps the
//! form that an expression had before the compiler transformed it.
//!
//! - [`lexer`] splits the text into tokens.
//! - [`parser`] builds the forest of nodes from the tokens.
//! - [`data_extractor`] walks the forest and collects one record for each
//!   declaration that carries a type.
//! - [`printer`] writes a forest as dump text again; [`round_trip`] proves
//!   that reading that text gives the forest back.
//! - [`generated`] and [`grammar`] hold the second reader, which goes by
//!   way of a parse tree of the grammar, and the proof that both readers
//!   agree.
//! - [`pipeline`] puts the stages together.
//! - [`source_order`] proves that children and tokens keep the order of the
//!   source; [`token_stream`], [`printed_text`] and [`well_formed`] hold
//!   the lemmas that the proofs above rest on.

pub mod cli_args;
pub mod data_extractor;
pub mod error;
pub mod generated;
pub mod grammar;
pub mod lexer;
pub mod node_type;
pub mod parser;
pub mod pipeline;
pub mod printed_text;
pub mod printer;
pub mod round_trip;
pub mod source_order;
pub mod swift_dump_ast;
pub mod text;
pub mod token;
pub mod token_stream;
pub mod well_formed;

pub use data_extractor::{DataExtractor, TypeRecord};
pub use error::{SyntaxError, SyntaxErrorKind};
pub use lexer::Lexer;
pub use parser::Parser;
