//! The content model: message text as either one plain string or an ordered
//! run of fragments, and its flattening to a single display string.

use vstd::prelude::*;

verus! {

/// A typed span of text extracted from a message.
pub struct TextEntity {
    /// The kind tag of the entity (for example a link or a mention).
    pub entity_type: String,
    /// The literal text the entity covers.
    pub text: String,
}

/// One fragment of structured message text: a literal string or an entity.
pub enum TextElement {
    String(String),
    Entity(TextEntity),
}

/// Message text: one plain string, or an ordered sequence of fragments.
pub enum Text {
    Plain(String),
    Structured(Vec<TextElement>),
}

/// The text one fragment contributes to the flattened form.
pub open spec fn elem_text(e: TextElement) -> Seq<char> {
    match e {
        TextElement::String(s) => s@,
        TextElement::Entity(te) => te.text@,
    }
}

/// In-order concatenation of the texts of all fragments.
pub open spec fn flat_elems(elems: Seq<TextElement>) -> Seq<char>
    decreases elems.len(),
{
    if elems.len() == 0 {
        Seq::empty()
    } else {
        flat_elems(elems.drop_last()) + elem_text(elems.last())
    }
}

/// The canonical display text of a `Text` value: the plain string itself, or
/// the concatenation of all fragment texts with no separators.
pub open spec fn flat_text(t: Text) -> Seq<char> {
    match t {
        Text::Plain(s) => s@,
        Text::Structured(es) => flat_elems(es@),
    }
}

impl Text {
    /// Flattens to the display text. Total: the identity on `Plain`, and the
    /// in-order, separator-free concatenation of fragment texts on
    /// `Structured`.
    pub fn flatten(&self) -> (r: String)
        ensures
            r@ == flat_text(*self),
    {
        match self {
            Text::Plain(s) => s.clone(),
            Text::Structured(es) => {
                let mut out = String::new();
                let mut i: usize = 0;
                while i < es.len()
                    invariant
                        i <= es.len(),
                        out@ == flat_elems(es@.take(i as int)),
                    decreases es.len() - i,
                {
                    match &es[i] {
                        TextElement::String(s) => out.append(s.as_str()),
                        TextElement::Entity(te) => out.append(te.text.as_str()),
                    }
                    proof {
                        assert(es@.take(i + 1).drop_last() =~= es@.take(i as int));
                        assert(es@.take(i + 1).last() == es@[i as int]);
                    }
                    i = i + 1;
                }
                proof {
                    assert(es@.take(es@.len() as int) =~= es@);
                }
                out
            },
        }
    }
}

} // verus!
