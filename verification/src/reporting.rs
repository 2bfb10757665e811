//! A diagnostic code for a project whose configuration lacks its main
//! prefix; callers render it however their reporting wants.

use vstd::prelude::*;

verus! {

/// The missing-main-prefix diagnostic.
#[derive(Debug)]
pub struct MissingMainPrefix;

impl MissingMainPrefix {
    /// The diagnostic's short identifier.
    pub fn ident(&self) -> (r: &'static str)
        ensures
            r@ == "BCLE5"@,
    {
        "BCLE5"
    }

    /// Where the documentation explains the diagnostic.
    pub fn link(&self) -> (r: Option<&str>)
        ensures
            r matches Some(l) && l@ == "/configuration/index.html#main-prefix"@,
    {
        Some("/configuration/index.html#main-prefix")
    }

    /// The message shown to the user.
    pub fn message(&self) -> (r: String)
        ensures
            r@ == "Missing `mainprefix` in project.toml."@,
    {
        "Missing `mainprefix` in project.toml.".to_owned()
    }

    /// A fresh instance of the diagnostic.
    pub fn code() -> (r: Self)
        ensures
            r == (MissingMainPrefix {  }),
    {
        MissingMainPrefix {  }
    }
}

} // verus!
