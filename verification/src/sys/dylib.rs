//! What can go wrong when a shared library is loaded at run time.
//!
//! A vehicle ships a shared library whose path is only known once it has been
//! built, so it cannot be linked.

use vstd::prelude::*;

verus! {

#[derive(Debug)]
pub struct DylibError {
    pub detail: String,
}

impl DylibError {
    pub fn message(&self) -> (message: String)
        ensures
            message@ == self.detail@,
    {
        self.detail.as_str().to_owned()
    }

    /// The path holds a NUL.
    pub fn path(text: &str) -> (error: Self)
        ensures
            error.detail@ == "path is not a C string: "@ + text@,
    {
        let mut detail: String = "path is not a C string: ".to_owned();
        detail.append(text);
        DylibError { detail }
    }

    /// The loader refused the library.
    pub fn open(text: &str, reason: &str) -> (error: Self)
        ensures
            error.detail@ == "dlopen("@ + text@ + "): "@ + reason@,
    {
        let mut detail: String = "dlopen(".to_owned();
        detail.append(text);
        detail.append("): ");
        detail.append(reason);
        DylibError { detail }
    }

    /// The symbol's name holds a NUL.
    pub fn name(name: &str) -> (error: Self)
        ensures
            error.detail@ == "bad symbol name: "@ + name@,
    {
        let mut detail: String = "bad symbol name: ".to_owned();
        detail.append(name);
        DylibError { detail }
    }

    /// The library has no such symbol.
    pub fn symbol(name: &str, library: &str, reason: &str) -> (error: Self)
        ensures
            error.detail@ == "dlsym("@ + name@ + ") in "@ + library@ + ": "@ + reason@,
    {
        let mut detail: String = "dlsym(".to_owned();
        detail.append(name);
        detail.append(") in ");
        detail.append(library);
        detail.append(": ");
        detail.append(reason);
        DylibError { detail }
    }
}

} // verus!
