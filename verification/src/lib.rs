//! A server-side HTML template renderer: it interprets Vue-style directives
//! (`v-if` / `v-else-if` / `v-else`, `v-for`, `v-bind`, `v-pre`) and mustache
//! interpolations `{{ ... }}` against a JSON data payload, rewrites the
//! document tree accordingly, and serializes the result back to HTML.

pub mod chain;
pub mod dom;
pub mod engine;
pub mod htmlio;
pub mod hydrate;
pub mod js;
pub mod json;
pub mod mustache;
pub mod render;
pub mod syntax;
pub mod text;
pub mod traverse;

pub use render::{RenderError, render};
pub use text::adjust_text_indent;
