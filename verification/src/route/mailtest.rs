//! Previewing e-mail templates.
use vstd::prelude::*;

verus! {

/// The template to preview.
pub struct Template {
    pub name: String,
}

} // verus!
