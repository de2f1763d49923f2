//! Block specs and the envelope they sit in. A variant that can hold rows is
//! a variant designed wrong: every type here carries content the model
//! authored, never data by value. Parsing the stored JSON is the caller's;
//! what a parsed envelope means is decided here.

use vstd::prelude::*;

verus! {

/// The highest spec version this build understands. A block whose envelope
/// carries a higher one is rendered via its fallback, never errored.
pub const SPEC_VERSION: u32 = 1;

pub enum Spec {
    /// Markdown, rendered server-side.
    Prose { text: String },
    /// An HTML fragment, inlined into the page.
    Markup { html: String },
    /// A whole document, isolated in a sandboxed iframe.
    Html { document: String },
}

impl Spec {
    /// The single producer of both spellings of the type: the `type` column
    /// and the serialized tag must never be written independently.
    pub fn tag_name(&self) -> (r: &'static str)
        ensures
            r@ == match self {
                Spec::Prose { .. } => "prose"@,
                Spec::Markup { .. } => "markup"@,
                Spec::Html { .. } => "html"@,
            },
    {
        match self {
            Spec::Prose { .. } => "prose",
            Spec::Markup { .. } => "markup",
            Spec::Html { .. } => "html",
        }
    }
}

/// What every stored block carries regardless of its type: the version it
/// was written at, and the text to show where the type cannot be rendered.
/// Fields this build does not know are not part of it, and never refuse a
/// block.
pub struct Envelope {
    pub version: u32,
    pub fallback: Option<String>,
}

/// What a stored spec decodes to: a variant we know at a version we render,
/// or the envelope, whose fallback is rendered in a visibly marked
/// container instead of an error.
pub enum Decoded {
    Known(Spec),
    Degraded(Envelope),
}

/// Parse the envelope first, then the variant: a version above
/// `SPEC_VERSION` degrades even for a known type; a variant that did not
/// parse (an unknown type) degrades with the fallback in hand; only then is
/// the spec known.
pub fn decide(envelope: Envelope, variant: Option<Spec>) -> (d: Decoded)
    ensures
        envelope.version > SPEC_VERSION ==> d == Decoded::Degraded(envelope),
        envelope.version <= SPEC_VERSION ==> match variant {
            Some(s) => d == Decoded::Known(s),
            None => d == Decoded::Degraded(envelope),
        },
{
    if envelope.version > SPEC_VERSION {
        return Decoded::Degraded(envelope);
    }
    match variant {
        Some(s) => Decoded::Known(s),
        None => Decoded::Degraded(envelope),
    }
}

} // verus!
