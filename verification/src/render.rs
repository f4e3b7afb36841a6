//! The public entry point: parse, render against the payload, and
//! serialize back to text.

use vstd::prelude::*;

use crate::engine::Engine;
use crate::htmlio::{parse_document_chars, parsed_doc, serialize_document, serialized_doc,
    string_of_chars};
use crate::text::str_to_chars;
use crate::traverse::traverse_node;

verus! {

/// What can go wrong at the document boundary. Expression errors inside
/// the template never surface here: they are contained per directive.
#[derive(Debug)]
pub enum RenderError {
    /// The input could not be parsed as an HTML document.
    Parse,
    /// The rendered tree could not be serialized back to text.
    Serialize,
}

/// Renders an HTML template against a JSON payload: the document is
/// parsed (a body wrapper is synthesized when absent), the payload's
/// top-level fields become the expression evaluator's base bindings, the
/// directives and mustaches are interpreted in place, and the result is
/// serialized by the standard HTML serialization.
///
/// The call succeeds exactly when the parse does. Expression errors in
/// the template never surface: each is contained by its directive.
pub fn render(html: String, data: serde_json::Value) -> (r: Result<String, RenderError>)
    ensures
        r is Ok <==> parsed_doc(html@) is Some,
        match r {
            Ok(out) => parsed_doc(html@) is Some && (crate::traverse::clean(
                parsed_doc(html@).unwrap(),
            ) ==> serialized_doc(parsed_doc(html@).unwrap()) == Some(out@)) && ((
            crate::traverse::tame(parsed_doc(html@).unwrap())
                && crate::traverse::root_core_free(parsed_doc(html@).unwrap())) ==> exists|
                d2: crate::dom::HtmlV,
            |
                crate::traverse::no_directives(d2) && #[trigger] serialized_doc(d2) == Some(
                    out@,
                )),
            Err(e) => e is Parse && parsed_doc(html@) is None,
        },
{
    let chars = str_to_chars(html.as_str());
    match parse_document_chars(&chars) {
        Err(()) => Err(RenderError::Parse),
        Ok(doc) => {
            let mut engine = Engine::new(&data);
            let rendered = traverse_node(doc, &mut engine);
            let out = match serialize_document(&rendered) {
                Err(()) => {
                    // The serializer's contract rules this arm out: the
                    // parse yields no nested document node, and the
                    // traversal introduces none.
                    return Err(RenderError::Serialize);
                },
                Ok(out) => out,
            };
            proof {
                if crate::traverse::tame(doc@) && crate::traverse::root_core_free(doc@) {
                    assert(crate::traverse::no_directives(rendered@));
                }
            }
            Ok(string_of_chars(&out))
        },
    }
}

} // verus!
