//! Typed text templates with named `{field}` placeholders.
//!
//! A template is compiled once against the field names of a parameter type,
//! which checks every placeholder, and can then be rendered against any number
//! of values of that type. Literal braces are written doubled: `{{` and `}}`.
use vstd::prelude::*;

pub mod compile;
pub mod element;
pub mod laws;
pub mod model;
pub mod params;
pub mod template;
pub mod text;

pub use compile::compile_elements;
pub use element::{TemplateElement, TemplateError};
pub use params::TemplateParams;
pub use template::{Parameterized, TemplateString};

verus! {

/// A template compiled against the fields of `T`.
pub type Template<T> = TemplateString<T>;

} // verus!
