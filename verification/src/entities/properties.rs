//! Rows of the properties panel.

use vstd::prelude::*;
use crate::manifest::{strings_view, strs_view, to_strings};

verus! {

/// The editable value of a property row.
#[derive(Clone, Debug, PartialEq)]
pub enum PropValue {
    /// A checkbox bound to the entity field `field`.
    BoolToggle { field: &'static str, value: bool },
    /// A drop-down with the current choice and the options offered.
    Choice { selected: String, options: Vec<String> },
}

/// One row of the properties panel.
#[derive(Clone, Debug, PartialEq)]
pub struct Property {
    pub label: String,
    /// The entity field the row edits.
    pub field: &'static str,
    pub value: PropValue,
}

/// A checkbox row.
pub fn bool_toggle(label: &str, field: &'static str, value: bool) -> (p: Property)
    ensures
        p.label@ == label@,
        p.field == field,
        p.value == (PropValue::BoolToggle { field, value }),
{
    Property { label: label.to_owned(), field, value: PropValue::BoolToggle { field, value } }
}

/// A drop-down row showing `selected` among `opts`.
pub fn choice(label: &str, field: &'static str, selected: &str, opts: &[&str]) -> (p: Property)
    ensures
        p.label@ == label@,
        p.field == field,
        p.value matches PropValue::Choice { selected: s, options: o } && s@ == selected@
            && strings_view(o@) == strs_view(opts@),
{
    Property {
        label: label.to_owned(),
        field,
        value: PropValue::Choice { selected: selected.to_owned(), options: to_strings(opts) },
    }
}

} // verus!
