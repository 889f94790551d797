//! Incremental stub pipeline for a gradual type checker.
//!
//! The store (`store`) holds the committed inputs (`input`) and what has
//! been computed from them. A change (`change`) is committed in one step.
//! What the parser is asked and told is in `erl_ast`. The four stages that
//! lead from a module's forms to its stub are defined in `pipeline` and
//! computed in `db`, `expand`, `contractivity` and `trans_valid`; `db` also
//! answers the questions about single declarations, with the overrides of
//! `overrides` first. Declarations (`form`, `stub`) are written as bytes
//! through a tree of nodes (`codec`, `nodes`, `encoding`). `laws` states what
//! holds of the whole. `semantic_tokens` and `token_text` serve the editor.

pub mod change;
pub mod codec;
pub mod contractivity;
pub mod db;
pub mod deps;
pub mod encoding;
pub mod erl_ast;
pub mod error;
pub mod expand;
pub mod form;
pub mod frame;
pub mod ids;
pub mod input;
pub mod laws;
pub mod nodes;
pub mod overrides;
pub mod pipeline;
pub mod semantic_tokens;
pub mod seqs;
pub mod store;
pub mod stub;
pub mod terms;
pub mod text;
pub mod token_text;
pub mod trans_valid;
