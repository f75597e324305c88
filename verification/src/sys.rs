//! What the kernel makes of the platform: the failures it reports, and the
//! decisions it takes around the calls that only the platform can make.

use vstd::prelude::*;

use crate::text;
use crate::text::signed_text;

pub mod clock;
pub mod dylib;
pub mod sched;
pub mod shm;

verus! {

/// A platform call that failed, carrying the errno the caller needs to report.
#[derive(Clone, Copy, PartialEq, Eq, Debug)]
pub struct SysError {
    pub call: &'static str,
    pub errno: i32,
}

impl SysError {
    pub open spec fn explained(self) -> Seq<char> {
        self.call@ + " failed (errno "@ + text::signed(self.errno as int) + ")"@
    }

    pub fn message(&self) -> (message: String)
        ensures
            message@ == self.explained(),
    {
        let mut message: String = self.call.to_owned();
        message.append(" failed (errno ");
        message.append(signed_text(self.errno).as_str());
        message.append(")");
        message
    }
}

/// Turn a return code into a result. `errno` is what the platform left behind.
pub fn check(call: &'static str, rc: i32, errno: i32) -> (result: Result<(), SysError>)
    ensures
        result is Ok == (rc == 0),
        result matches Err(error) ==> error.call@ == call@ && error.errno == errno,
{
    if rc == 0 {
        Ok(())
    } else {
        Err(SysError { call, errno })
    }
}

} // verus!
