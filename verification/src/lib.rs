//! Reconstruction engine for GDScript source embedded in Rust token trees.
//!
//! A macro hands this library the raw token tree of an embedded GDScript
//! block, where the only layout information is each token's source span.
//! The engine replays the tokens into exactly-formatted text, reproducing
//! the original line breaks and indentation relative to a baseline column,
//! recognizes the `'ident` splice escape that injects Rust values by name,
//! and collects the spliced identifiers into a deterministically ordered
//! registry.

use vstd::prelude::*;

pub mod embed_gdscript;
pub mod laws;
pub mod registry;
pub mod text;
pub mod token;
pub mod unit;

pub use embed_gdscript::EmbedError;
pub use embed_gdscript::EmbedGdscript;
pub use embed_gdscript::EmbedView;
pub use registry::Binding;
pub use registry::Registry;
pub use text::char_repeat;
pub use text::lex_lt;
pub use token::Delimiter;
pub use token::Position;
pub use token::Spacing;
pub use token::Span;
pub use token::Token;
pub use unit::BareScript;
pub use unit::EmbeddingUnit;
pub use unit::FromInlineGdscript;
pub use unit::RunScript;
pub use unit::gdscript_impl;
pub use unit::indent_lines;
pub use unit::wrap_bare;
pub use unit::wrap_run;

verus! {

/// The prefix prepended to a spliced Rust identifier to form its
/// placeholder name inside the generated GDScript text.
pub open spec fn mangle_prefix() -> Seq<char> {
    "_RUST_"@
}

} // verus!
