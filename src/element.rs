//! The elements of a compiled template and the errors of compiling one.
use vstd::prelude::*;

use std::cmp::Ordering;

use crate::model::{piece_cmp, text_cmp, Fault, Piece};
use crate::text::chars_of;

verus! {

/// One element of a compiled template.
#[derive(Debug, Ord, Hash)]
pub enum TemplateElement {
    /// Literal text.
    Text(String),
    /// A reference to the field at this index of the parameter type.
    Var(usize),
}

impl View for TemplateElement {
    type V = Piece;

    open spec fn view(&self) -> Piece {
        match self {
            TemplateElement::Text(s) => Piece::Text(s@),
            TemplateElement::Var(i) => Piece::Field(*i as nat),
        }
    }
}

impl Clone for TemplateElement {
    fn clone(&self) -> (r: TemplateElement)
        ensures
            r@ == self@,
    {
        match self {
            TemplateElement::Text(s) => TemplateElement::Text(s.clone()),
            TemplateElement::Var(i) => TemplateElement::Var(*i),
        }
    }
}

impl PartialEq for TemplateElement {
    fn eq(&self, other: &TemplateElement) -> (r: bool)
        ensures
            r == (self@ == other@),
    {
        match (self, other) {
            (TemplateElement::Text(a), TemplateElement::Text(b)) => *a == *b,
            (TemplateElement::Var(i), TemplateElement::Var(j)) => *i == *j,
            _ => false,
        }
    }
}

impl vstd::std_specs::cmp::PartialEqSpecImpl for TemplateElement {
    open spec fn obeys_eq_spec() -> bool {
        true
    }

    open spec fn eq_spec(&self, other: &TemplateElement) -> bool {
        self@ == other@
    }
}

impl Eq for TemplateElement {}

/// Compares two texts character by character.
fn compare_text(a: &str, b: &str) -> (r: Ordering)
    ensures
        r == text_cmp(a@, b@),
{
    let x = chars_of(a);
    let y = chars_of(b);
    let mut k: usize = 0;
    proof {
        assert(x@.skip(0) =~= x@);
        assert(y@.skip(0) =~= y@);
    }
    while k < x.len() && k < y.len()
        invariant
            k <= x@.len(),
            k <= y@.len(),
            text_cmp(a@, b@) == text_cmp(x@.skip(k as int), y@.skip(k as int)),
            x@ == a@,
            y@ == b@,
        decreases x@.len() - k,
    {
        let c = x[k];
        let d = y[k];
        proof {
            assert(x@.skip(k as int).drop_first() =~= x@.skip(k + 1));
            assert(y@.skip(k as int).drop_first() =~= y@.skip(k + 1));
        }
        if (c as u32) < (d as u32) {
            return Ordering::Less;
        }
        if (c as u32) > (d as u32) {
            return Ordering::Greater;
        }
        k = k + 1;
    }
    if k == x.len() {
        if k == y.len() {
            Ordering::Equal
        } else {
            Ordering::Less
        }
    } else {
        Ordering::Greater
    }
}

impl PartialOrd for TemplateElement {
    fn partial_cmp(&self, other: &TemplateElement) -> (r: Option<Ordering>)
        ensures
            r == Some(piece_cmp(self@, other@)),
    {
        match (self, other) {
            (TemplateElement::Text(a), TemplateElement::Text(b)) => Some(compare_text(a.as_str(), b.as_str())),
            (TemplateElement::Text(_), TemplateElement::Var(_)) => Some(Ordering::Less),
            (TemplateElement::Var(_), TemplateElement::Text(_)) => Some(Ordering::Greater),
            (TemplateElement::Var(i), TemplateElement::Var(j)) => if *i < *j {
                Some(Ordering::Less)
            } else if *i > *j {
                Some(Ordering::Greater)
            } else {
                Some(Ordering::Equal)
            },
        }
    }
}

impl vstd::std_specs::cmp::PartialOrdSpecImpl for TemplateElement {
    open spec fn obeys_partial_cmp_spec() -> bool {
        true
    }

    open spec fn partial_cmp_spec(&self, other: &TemplateElement) -> Option<Ordering> {
        Some(piece_cmp(self@, other@))
    }
}

/// Why a source text does not compile.
#[derive(Debug)]
pub enum TemplateError {
    /// A placeholder names a field that the parameter type does not have.
    UnknownField(String),
    /// The text ends inside a placeholder.
    UnclosedPlaceholder,
    /// A `}` stands outside a placeholder and is not part of `}}`.
    UnmatchedClosingBracket,
}

impl View for TemplateError {
    type V = Fault;

    open spec fn view(&self) -> Fault {
        match self {
            TemplateError::UnknownField(s) => Fault::UnknownField(s@),
            TemplateError::UnclosedPlaceholder => Fault::UnclosedPlaceholder,
            TemplateError::UnmatchedClosingBracket => Fault::UnmatchedClosingBracket,
        }
    }
}

/// The message that describes a compile failure.
pub open spec fn message_of(f: Fault) -> Seq<char> {
    match f {
        Fault::UnknownField(name) => "Unknown field name: "@ + name,
        Fault::UnclosedPlaceholder => "Unclosed bracket in template"@,
        Fault::UnmatchedClosingBracket => "Unmatched closing bracket"@,
    }
}

impl TemplateError {
    /// A readable description of the failure.
    pub fn message(&self) -> (r: String)
        ensures
            r@ == message_of(self@),
    {
        match self {
            TemplateError::UnknownField(name) => {
                let mut m = String::from_str("Unknown field name: ");
                m.append(name.as_str());
                m
            },
            TemplateError::UnclosedPlaceholder => String::from_str("Unclosed bracket in template"),
            TemplateError::UnmatchedClosingBracket => String::from_str("Unmatched closing bracket"),
        }
    }
}

impl PartialEq for TemplateError {
    fn eq(&self, other: &TemplateError) -> (r: bool)
        ensures
            r == (self@ == other@),
    {
        match (self, other) {
            (TemplateError::UnknownField(a), TemplateError::UnknownField(b)) => *a == *b,
            (TemplateError::UnclosedPlaceholder, TemplateError::UnclosedPlaceholder) => true,
            (TemplateError::UnmatchedClosingBracket, TemplateError::UnmatchedClosingBracket) => true,
            _ => false,
        }
    }
}

impl vstd::std_specs::cmp::PartialEqSpecImpl for TemplateError {
    open spec fn obeys_eq_spec() -> bool {
        true
    }

    open spec fn eq_spec(&self, other: &TemplateError) -> bool {
        self@ == other@
    }
}

impl Eq for TemplateError {}

} // verus!
