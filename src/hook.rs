use vstd::prelude::*;

verus! {

/// The kind of git hook that can be installed to run the checks.
#[derive(Clone, Copy, Debug, PartialEq, Eq, Structural)]
pub enum HookType {
    Commit,
    Push,
}

impl HookType {
    /// The file name that git looks up in its hooks directory.
    pub open spec fn spec_filename(self) -> Seq<char> {
        match self {
            HookType::Commit => "pre-commit"@,
            HookType::Push => "pre-push"@,
        }
    }

    pub fn filename(&self) -> (r: String)
        ensures
            r@ == self.spec_filename(),
    {
        match self {
            HookType::Commit => String::from_str("pre-commit"),
            HookType::Push => String::from_str("pre-push"),
        }
    }
}

} // verus!
