//! Shared memory segments, as far as they can be described without a mapping.
//!
//! A segment has one owner, the process that created it and must unlink it, and
//! any number of others that merely attached, so a crashed view does not delete
//! the segment the kernel is still publishing into.

use vstd::prelude::*;

use crate::sys::sched::EINVAL;
use crate::sys::SysError;
use crate::text;

verus! {

/// The name the platform knows a segment by: rooted.
pub open spec fn rooted(name: Seq<char>) -> Seq<char> {
    if name.len() > 0 && name[0] == '/' {
        name
    } else {
        seq!['/'] + name
    }
}

/// The rooted name of a segment. A name with a NUL in it names nothing.
pub fn shm_path(name: &str) -> (path: Result<String, SysError>)
    ensures
        match path {
            Ok(text) => !name@.contains('\0') && text@ == rooted(name@),
            Err(error) => name@.contains('\0') && error.call@ == "shm_open"@ && error.errno
                == EINVAL,
        },
{
    let letters: Vec<char> = text::letters(name);
    let mut i: usize = 0;
    while i < letters.len()
        invariant
            letters@ == name@,
            i <= letters.len(),
            forall|j: int| 0 <= j < i ==> letters@[j] != '\0',
        decreases letters.len() - i,
    {
        if letters[i] == '\0' {
            assert(name@[i as int] == '\0');
            return Err(SysError { call: "shm_open", errno: EINVAL });
        }
        i += 1;
    }
    let mut path: String = String::new();
    if letters.len() == 0 || letters[0] != '/' {
        path.push('/');
    }
    path.append(name);
    assert(path@ =~= rooted(name@));
    Ok(path)
}

/// What is known of a mapped region apart from where it lies.
#[derive(Debug)]
pub struct SharedRegion {
    len: usize,
    name: String,
    owner: bool,
}

impl SharedRegion {
    pub closed spec fn size(self) -> usize {
        self.len
    }

    pub closed spec fn title(self) -> Seq<char> {
        self.name@
    }

    pub closed spec fn owned(self) -> bool {
        self.owner
    }

    /// A segment this process made, which it has to unlink in the end.
    pub fn create(name: &str, len: usize) -> (region: Self)
        ensures
            region.size() == len,
            region.title() == name@,
            region.owned(),
    {
        SharedRegion { len, name: name.to_owned(), owner: true }
    }

    /// A segment that another process made.
    pub fn attach(name: &str, len: usize) -> (region: Self)
        ensures
            region.size() == len,
            region.title() == name@,
            !region.owned(),
    {
        SharedRegion { len, name: name.to_owned(), owner: false }
    }

    pub fn len(&self) -> (len: usize)
        ensures
            len == self.size(),
    {
        self.len
    }

    pub fn is_empty(&self) -> (empty: bool)
        ensures
            empty == (self.size() == 0),
    {
        self.len == 0
    }

    pub fn name(&self) -> (name: &str)
        ensures
            name@ == self.title(),
    {
        self.name.as_str()
    }

    /// What to unlink when the region goes: the owner's segment, if its name is
    /// one the platform takes.
    pub fn unlinks(&self) -> (path: Option<String>)
        ensures
            match path {
                Some(text) => self.owned() && !self.title().contains('\0') && text@ == rooted(
                    self.title(),
                ),
                None => !self.owned() || self.title().contains('\0'),
            },
    {
        if self.owner {
            match shm_path(self.name.as_str()) {
                Ok(path) => Some(path),
                Err(_) => None,
            }
        } else {
            None
        }
    }
}

} // verus!
