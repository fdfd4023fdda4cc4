use vstd::prelude::*;

verus! {

/// The command line: an optional path of a script file to run.
pub struct Cli {
    pub file: Option<String>,
}

impl Cli {
    /// Returns `true` if the `Option` fields are of `None` value.
    pub fn is_empty(&self) -> (r: bool)
        ensures
            r == self.file.is_none(),
    {
        self.file.is_none()
    }
}

} // verus!
