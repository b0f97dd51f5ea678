//! Compiled templates: rendering against a value and the canonical source form.
use vstd::prelude::*;

use std::cmp::Ordering;
use std::marker::PhantomData;
use std::str::FromStr;

use crate::compile::{compile_elements, lemma_pieces_push, pieces_of};
use crate::element::{TemplateElement, TemplateError};
use crate::laws::lemma_parse_valid;
use crate::model::{
    escape, escape_char, escape_text, fill, lemma_escape_take, lemma_escape_text_take,
    lemma_fill_take, parse, pieces_cmp, texts_of, valid, Fault, Piece,
};
use crate::laws::lemma_render_exact;
use crate::params::{field_names, field_text, gives_values, TemplateParams};
use crate::text::{chars_of, push_char};

verus! {

/// A template compiled against the fields of `T`.
///
/// Every placeholder was checked against `T`'s field names when the template
/// was compiled, so rendering it against a value of `T` cannot fail.
/// Equality, order and hashing look at the elements alone.
#[derive(Debug, Ord, Hash)]
pub struct TemplateString<T> {
    elements: Vec<TemplateElement>,
    phantom: PhantomData<T>,
}

impl<T> View for TemplateString<T> {
    type V = Seq<Piece>;

    closed spec fn view(&self) -> Seq<Piece> {
        pieces_of(self.elements@)
    }
}

/// The outcome of compiling a template, as a value.
pub open spec fn compiled<T>(r: &Result<TemplateString<T>, TemplateError>) -> Result<Seq<Piece>, Fault> {
    match r {
        Ok(t) => Ok(t@),
        Err(e) => Err(e@),
    }
}

/// Appends the literal text `t` in source form, its braces doubled.
fn push_escaped(out: &mut String, t: &str)
    ensures
        final(out)@ == old(out)@ + escape_text(t@),
{
    let cs = chars_of(t);
    let ghost start = old(out)@;
    let mut j: usize = 0;
    proof {
        assert(cs@.take(0) =~= seq![]);
        assert(start + seq![] =~= start);
    }
    while j < cs.len()
        invariant
            j <= cs@.len(),
            cs@ == t@,
            out@ == start + escape_text(cs@.take(j as int)),
        decreases cs@.len() - j,
    {
        let c = cs[j];
        proof {
            lemma_escape_text_take(cs@, j as int);
            assert(start + (escape_text(cs@.take(j as int)) + escape_char(c)) =~= out@ + escape_char(c));
        }
        if c == '{' || c == '}' {
            push_char(out, c);
            push_char(out, c);
            assert(escape_char(c) =~= seq![c, c]);
        } else {
            push_char(out, c);
            assert(escape_char(c) =~= seq![c]);
        }
        j = j + 1;
    }
    proof {
        assert(cs@.take(j as int) =~= cs@);
    }
}

impl<T: TemplateParams> TemplateString<T> {
    /// The template is one that compiling can produce for `T`.
    pub open spec fn wf(&self) -> bool {
        valid(self@, field_names::<T>())
    }

    /// Compiles `source` against the fields of `T`.
    pub fn compile(source: &str) -> (r: Result<Self, TemplateError>)
        ensures
            compiled(&r) == parse(source@, field_names::<T>()),
            r matches Ok(t) ==> t.wf(),
    {
        let fields = T::FIELDS;
        proof {
            lemma_parse_valid(source@, field_names::<T>());
        }
        match compile_elements(source, fields) {
            Ok(elements) => Ok(TemplateString { elements, phantom: PhantomData }),
            Err(e) => Err(e),
        }
    }

    /// Renders the template with the values of `params`: text is copied, and
    /// each placeholder in turn is replaced by the text that `params` gives
    /// for its field.
    pub fn format(&self, params: &T) -> (r: String)
        requires
            self.wf(),
        ensures
            exists|parts: Seq<Seq<char>>|
                renders_pieces(self@, params, parts) && r@ == #[trigger] parts.flatten(),
            forall|values: Seq<Seq<char>>|
                values.len() == T::FIELDS@.len() && gives_values(params, values)
                    ==> r@ == #[trigger] fill(self@, values),
    {
        Parameterized(params, self).to_string()
    }

    /// Renders the template with `values[i]` as the text of field `i`.
    pub fn render(&self, values: &Vec<String>) -> (r: String)
        requires
            self.wf(),
            values@.len() == T::FIELDS@.len(),
        ensures
            r@ == fill(self@, texts_of(values@)),
    {
        let ghost pieces = self@;
        let ghost texts = texts_of(values@);
        let mut out = String::new();
        let mut k: usize = 0;
        proof {
            assert(pieces.take(0) =~= seq![]);
        }
        while k < self.elements.len()
            invariant
                k <= self.elements@.len(),
                pieces == self@,
                pieces.len() == self.elements@.len(),
                self.wf(),
                values@.len() == T::FIELDS@.len(),
                texts == texts_of(values@),
                out@ == fill(pieces.take(k as int), texts),
            decreases self.elements@.len() - k,
        {
            proof {
                lemma_fill_take(pieces, texts, k as int);
            }
            match &self.elements[k] {
                TemplateElement::Text(t) => {
                    out.append(t.as_str());
                },
                TemplateElement::Var(i) => {
                    proof {
                        assert(pieces[k as int] == Piece::Field(*i as nat));
                    }
                    out.append(values[*i].as_str());
                },
            }
            k = k + 1;
        }
        proof {
            assert(pieces.take(k as int) =~= pieces);
        }
        out
    }

    /// The canonical source form: literal braces doubled, each field as its
    /// name in braces. Compiling it again gives back this template.
    pub fn render_escaped(&self) -> (r: String)
        requires
            self.wf(),
        ensures
            r@ == escape(self@, field_names::<T>()),
    {
        let fields = T::FIELDS;
        let ghost names = field_names::<T>();
        let ghost pieces = self@;
        let mut out = String::new();
        let mut k: usize = 0;
        proof {
            assert(pieces.take(0) =~= seq![]);
        }
        while k < self.elements.len()
            invariant
                k <= self.elements@.len(),
                pieces == self@,
                pieces.len() == self.elements@.len(),
                self.wf(),
                names == field_names::<T>(),
                fields == T::FIELDS,
                out@ == escape(pieces.take(k as int), names),
            decreases self.elements@.len() - k,
        {
            proof {
                lemma_escape_take(pieces, names, k as int);
            }
            match &self.elements[k] {
                TemplateElement::Text(t) => {
                    push_escaped(&mut out, t.as_str());
                },
                TemplateElement::Var(i) => {
                    let ghost start = out@;
                    proof {
                        assert(pieces[k as int] == Piece::Field(*i as nat));
                    }
                    push_char(&mut out, '{');
                    out.append(fields[*i]);
                    push_char(&mut out, '}');
                    proof {
                        assert(out@ =~= start + (seq!['{'] + names[*i as int] + seq!['}']));
                    }
                },
            }
            k = k + 1;
        }
        proof {
            assert(pieces.take(k as int) =~= pieces);
        }
        out
    }
}

/// `parts` renders `pieces` against `params`, one part per piece: each text
/// piece as its own text, each field piece as the value's text for that field.
pub open spec fn renders_pieces<T: TemplateParams>(pieces: Seq<Piece>, params: &T, parts: Seq<Seq<char>>) -> bool {
    &&& parts.len() == pieces.len()
    &&& forall|k: int|
        0 <= k < pieces.len() ==> match #[trigger] pieces[k] {
            Piece::Text(t) => parts[k] == t,
            Piece::Field(i) => field_text(params, i as int, parts[k]),
        }
}

/// A template paired with the value that fills it.
pub struct Parameterized<'i, T>(pub &'i T, pub &'i TemplateString<T>);

impl<'i, T: TemplateParams> Parameterized<'i, T> {
    /// The template rendered with the value's fields: text is copied, and the
    /// value is asked for a field's text at each placeholder, in order.
    pub fn to_string(&self) -> (r: String)
        requires
            self.1.wf(),
        ensures
            exists|parts: Seq<Seq<char>>|
                renders_pieces(self.1@, self.0, parts) && r@ == #[trigger] parts.flatten(),
            forall|values: Seq<Seq<char>>|
                values.len() == T::FIELDS@.len() && gives_values(self.0, values)
                    ==> r@ == #[trigger] fill(self.1@, values),
    {
        let template = self.1;
        let params = self.0;
        let ghost pieces = template@;
        let ghost mut parts: Seq<Seq<char>> = seq![];
        let mut out = String::new();
        let mut k: usize = 0;
        while k < template.elements.len()
            invariant
                k <= template.elements@.len(),
                pieces == template@,
                pieces.len() == template.elements@.len(),
                template.wf(),
                parts.len() == k,
                forall|m: int|
                    0 <= m < k ==> match #[trigger] pieces[m] {
                        Piece::Text(t) => parts[m] == t,
                        Piece::Field(i) => field_text(params, i as int, parts[m]),
                    },
                out@ == parts.flatten(),
            decreases template.elements@.len() - k,
        {
            let ghost before = parts;
            match &template.elements[k] {
                TemplateElement::Text(t) => {
                    out.append(t.as_str());
                    proof {
                        parts = parts.push(t@);
                    }
                },
                TemplateElement::Var(i) => {
                    proof {
                        assert(pieces[k as int] == Piece::Field(*i as nat));
                    }
                    let v = params.get_field(*i);
                    out.append(v.as_str());
                    proof {
                        parts = parts.push(v@);
                        assert(field_text(params, *i as int, v@));
                    }
                },
            }
            proof {
                before.lemma_flatten_push(parts.last());
                assert(parts =~= before.push(parts.last()));
            }
            k = k + 1;
        }
        proof {
            assert(parts.take(k as int) =~= parts);
            assert forall|values: Seq<Seq<char>>|
                values.len() == T::FIELDS@.len() && gives_values(params, values) implies out@ == #[trigger] fill(
                pieces,
                values,
            ) by {
                lemma_render_exact(pieces, params, parts, values);
            }
        }
        out
    }
}

impl<T> Clone for TemplateString<T> {
    fn clone(&self) -> (r: Self)
        ensures
            r@ == self@,
    {
        let mut elements: Vec<TemplateElement> = Vec::new();
        let mut k: usize = 0;
        while k < self.elements.len()
            invariant
                k <= self.elements@.len(),
                pieces_of(elements@) == pieces_of(self.elements@).take(k as int),
            decreases self.elements@.len() - k,
        {
            let e = self.elements[k].clone();
            let ghost before = elements@;
            elements.push(e);
            proof {
                lemma_pieces_push(before, e);
                assert(pieces_of(elements@) =~= pieces_of(self.elements@).take(k + 1));
            }
            k = k + 1;
        }
        proof {
            assert(pieces_of(self.elements@).take(k as int) =~= pieces_of(self.elements@));
        }
        TemplateString { elements, phantom: PhantomData }
    }
}

impl<T> PartialEq for TemplateString<T> {
    fn eq(&self, other: &Self) -> (r: bool)
        ensures
            r == (self@ == other@),
    {
        if self.elements.len() != other.elements.len() {
            proof {
                assert(self@.len() != other@.len());
            }
            return false;
        }
        let mut k: usize = 0;
        while k < self.elements.len()
            invariant
                k <= self.elements@.len(),
                self.elements@.len() == other.elements@.len(),
                forall|m: int| 0 <= m < k ==> self@[m] == other@[m],
            decreases self.elements@.len() - k,
        {
            if self.elements[k] != other.elements[k] {
                proof {
                    assert(self@[k as int] == self.elements@[k as int]@);
                    assert(other@[k as int] == other.elements@[k as int]@);
                }
                return false;
            }
            k = k + 1;
        }
        proof {
            assert(self@ =~= other@);
        }
        true
    }
}

impl<T> vstd::std_specs::cmp::PartialEqSpecImpl for TemplateString<T> {
    open spec fn obeys_eq_spec() -> bool {
        true
    }

    open spec fn eq_spec(&self, other: &Self) -> bool {
        self@ == other@
    }
}

impl<T> Eq for TemplateString<T> {}

impl<T> PartialOrd for TemplateString<T> {
    fn partial_cmp(&self, other: &Self) -> (r: Option<Ordering>)
        ensures
            r == Some(pieces_cmp(self@, other@)),
    {
        let ghost a = self@;
        let ghost b = other@;
        let mut k: usize = 0;
        proof {
            assert(a.skip(0) =~= a);
            assert(b.skip(0) =~= b);
        }
        while k < self.elements.len() && k < other.elements.len()
            invariant
                a == self@,
                b == other@,
                a.len() == self.elements@.len(),
                b.len() == other.elements@.len(),
                k <= a.len(),
                k <= b.len(),
                pieces_cmp(a, b) == pieces_cmp(a.skip(k as int), b.skip(k as int)),
            decreases a.len() - k,
        {
            let o = self.elements[k].partial_cmp(&other.elements[k]);
            proof {
                assert(a.skip(k as int)[0] == a[k as int]);
                assert(b.skip(k as int)[0] == b[k as int]);
                assert(a.skip(k as int).drop_first() =~= a.skip(k + 1));
                assert(b.skip(k as int).drop_first() =~= b.skip(k + 1));
            }
            match o {
                Some(Ordering::Equal) => {},
                _ => {
                    return o;
                },
            }
            k = k + 1;
        }
        if k == self.elements.len() {
            if k == other.elements.len() {
                Some(Ordering::Equal)
            } else {
                Some(Ordering::Less)
            }
        } else {
            Some(Ordering::Greater)
        }
    }
}

impl<T> vstd::std_specs::cmp::PartialOrdSpecImpl for TemplateString<T> {
    open spec fn obeys_partial_cmp_spec() -> bool {
        true
    }

    open spec fn partial_cmp_spec(&self, other: &Self) -> Option<Ordering> {
        Some(pieces_cmp(self@, other@))
    }
}

impl<T: TemplateParams> FromStr for TemplateString<T> {
    type Err = TemplateError;

    fn from_str(source: &str) -> (r: Result<Self, TemplateError>)
        ensures
            compiled(&r) == parse(source@, field_names::<T>()),
            r matches Ok(t) ==> t.wf(),
    {
        Self::compile(source)
    }
}

} // verus!
