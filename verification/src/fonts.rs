use vstd::prelude::*;

verus! {

/// The named font families the application registers beside the built-in
/// proportional and monospace ones.
pub enum NamedFontFamily {
    Medium,
}

impl NamedFontFamily {
    /// The registry name of the family.
    pub fn as_str(&mut self) -> (r: &'static str)
        ensures
            *final(self) == *old(self),
            *old(self) is Medium ==> r@ == "medium"@,
    {
        match self {
            Self::Medium => "medium",
        }
    }
}

} // verus!
