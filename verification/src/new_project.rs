//! The new-project dialog's series picker.
use vstd::prelude::*;

verus! {

/// A choice in the series picker: `None` is a standalone project.
#[derive(Debug, Clone, PartialEq, Eq)]
pub struct SeriesOption {
    pub name: Option<String>,
}

impl SeriesOption {
    /// The text the picker shows: the series name, or `No series`.
    pub fn label(&self) -> (r: String)
        ensures
            r@ == match self.name {
                Some(n) => n@,
                None => "No series"@,
            },
    {
        match &self.name {
            Some(n) => n.clone(),
            None => "No series".to_owned(),
        }
    }
}

} // verus!
