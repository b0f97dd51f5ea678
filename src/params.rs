use vstd::prelude::*;

use crate::model::names_of;

verus! {

/// A type whose values can fill a template.
///
/// The type names its fields in a fixed order; a compiled template refers to a
/// field by its position in that list, and a value renders each field as text.
pub trait TemplateParams {
    /// The field names, in order.
    const FIELDS: &'static [&'static str];

    /// The text of the field at `index`.
    fn get_field(&self, index: usize) -> String
        requires
            index < Self::FIELDS@.len(),
    ;
}

/// `text` is a text that `params.get_field(index)` returns: the value's text
/// for the field at `index`.
pub open spec fn field_text<T: TemplateParams>(params: &T, index: int, text: Seq<char>) -> bool {
    exists|r: String| #[trigger] call_ensures(T::get_field, (params, index as usize), r) && r@ == text
}

/// `params` gives `values[i]` as the text of field `i`, whenever it is asked.
pub open spec fn gives_values<T: TemplateParams>(params: &T, values: Seq<Seq<char>>) -> bool {
    forall|i: int, r: String|
        0 <= i < values.len() && #[trigger] call_ensures(T::get_field, (params, i as usize), r)
            ==> r@ == values[i]
}

/// The field names of `T`, as character sequences.
pub open spec fn field_names<T: TemplateParams>() -> Seq<Seq<char>> {
    names_of(T::FIELDS)
}

} // verus!
