use vstd::prelude::*;

verus! {

/// Invalid argument, or an operation not legal in the socket's current state.
pub const EINVAL: u32 = 22;

/// Nothing can be done right now; try again later.
pub const EAGAIN: u32 = 11;

/// The relevant side of the connection has been shut down.
pub const EPIPE: u32 = 32;

/// The file descriptor is already registered.
pub const EEXIST: u32 = 17;

/// The file descriptor is not registered.
pub const ENOENT: u32 = 2;

/// The file descriptor does not refer to an open file.
pub const EBADF: u32 = 9;

/// An I/O error; recorded when the host reports a result outside its contract.
pub const EIO: u32 = 5;

/// The peer refused the connection.
pub const ECONNREFUSED: u32 = 111;

/// An error number, as reported by the host kernel or raised by this library.
#[derive(Clone, Copy, Debug, PartialEq, Eq, Structural)]
pub struct Errno {
    pub code: u32,
}

impl Errno {
    pub fn new(code: u32) -> (r: Errno)
        ensures
            r.code == code,
    {
        Errno { code }
    }

    pub fn code(&self) -> (r: u32)
        ensures
            r == self.code,
    {
        self.code
    }
}

/// The error with number `code`.
pub open spec fn err_of(code: u32) -> Errno {
    Errno { code }
}

/// The error number that a negative completion value carries.
pub open spec fn errno_of_retval(retval: i32) -> Errno
    recommends
        retval < 0,
{
    Errno { code: (-(retval as int)) as u32 }
}

/// Turns a negative completion value into the error number it reports.
pub fn errno_from_retval(retval: i32) -> (r: Errno)
    requires
        retval < 0,
    ensures
        r == errno_of_retval(retval),
        r.code > 0,
{
    let neg: i64 = -(retval as i64);
    Errno { code: neg as u32 }
}

} // verus!
