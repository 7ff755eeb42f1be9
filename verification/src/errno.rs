//! Error numbers for the C interface.

use vstd::prelude::*;
use crate::shared::LibError;

verus! {

/// No error.
pub const NO_ERR: i32 = -1;
/// A handle of the wrong kind was passed.
pub const TYPE_ERR: i32 = 1;
/// The base of library errors.
pub const ERROR: i32 = 0x100;
/// The flag of I/O errors (or-ed with the OS error number).
pub const IO_ERROR: i32 = 0x200;

/// A value with an error number.
pub trait Errno {
    fn get_errno(&self) -> i32;
}

/// The OS error number an I/O error carries, if any, as
/// `std::io::Error::raw_os_error` gives it.
pub uninterp spec fn os_error_of(e: std::io::Error) -> Option<i32>;

/// `std::io::Error::raw_os_error`: the OS error number an I/O error
/// carries, if any.
#[verifier::external_body]
fn raw_os_error(e: &std::io::Error) -> (r: Option<i32>)
    ensures
        r == os_error_of(*e),
{
    e.raw_os_error()
}

/// The error number of an I/O error: its OS error number (0 when it has
/// none) with `IO_ERROR` set.
pub open spec fn io_errno(e: std::io::Error) -> i32 {
    (match os_error_of(e) {
        Some(c) => c,
        None => 0i32,
    }) | IO_ERROR
}

/// The error number of a library error: I/O errors as `Errno` of the I/O
/// error, the others a fixed number each.
pub open spec fn lib_errno(e: LibError) -> i32 {
    match e {
        LibError::Io(e) => io_errno(e),
        LibError::Huffman(_) => 0x101,
        LibError::Hpack(_) => 0x102,
        LibError::NotConnected => 0x103,
        LibError::ConnectionClosed => 0x104,
        LibError::StreamClosed => 0x105,
        LibError::HeadersSent => 0x106,
        LibError::Invalid => 0x107,
        LibError::InvalidFrame => 0x108,
        LibError::InvalidUpgrade => 0x109,
        LibError::InvalidStream => 0x110,
        LibError::InvalidString => 0x111,
        LibError::NotAccepted => 0x112,
        LibError::ResetStream => 0x113,
        LibError::Goaway => 0x114,
        LibError::ProtocolError => 0x115,
    }
}

/// Library errors other than I/O errors have numbers of their own: above
/// `ERROR`, below the I/O flag, and two errors with the same number are
/// of the same kind.
pub proof fn lemma_lib_errno_distinct(a: LibError, b: LibError)
    requires
        !(a is Io),
        !(b is Io),
        lib_errno(a) == lib_errno(b),
    ensures
        ERROR < lib_errno(a) < IO_ERROR,
        (a is Huffman) == (b is Huffman),
        (a is Hpack) == (b is Hpack),
        (a is NotConnected) == (b is NotConnected),
        (a is ConnectionClosed) == (b is ConnectionClosed),
        (a is StreamClosed) == (b is StreamClosed),
        (a is HeadersSent) == (b is HeadersSent),
        (a is Invalid) == (b is Invalid),
        (a is InvalidFrame) == (b is InvalidFrame),
        (a is InvalidUpgrade) == (b is InvalidUpgrade),
        (a is InvalidStream) == (b is InvalidStream),
        (a is InvalidString) == (b is InvalidString),
        (a is NotAccepted) == (b is NotAccepted),
        (a is ResetStream) == (b is ResetStream),
        (a is Goaway) == (b is Goaway),
        (a is ProtocolError) == (b is ProtocolError),
{
}

/// The number of an I/O error always has the I/O flag set, and carries the
/// OS error number below the flag when it has one there.
pub proof fn lemma_io_errno_flag(e: std::io::Error)
    ensures
        io_errno(e) & IO_ERROR == IO_ERROR,
        (os_error_of(e) matches Some(c) && 0 <= c < 0x200) ==> io_errno(e) == os_error_of(e)->0 + 0x200,
        os_error_of(e) is None ==> io_errno(e) == IO_ERROR,
{
    let c: i32 = match os_error_of(e) {
        Some(c) => c,
        None => 0i32,
    };
    assert((c | 0x200) & 0x200 == 0x200) by (bit_vector);
    assert(0 <= c < 0x200 ==> c | 0x200 == c + 0x200) by (bit_vector);
    assert(0i32 | 0x200 == 0x200) by (bit_vector);
}

impl Errno for std::io::Error {
    /// The OS error number (0 when there is none) with `IO_ERROR` set.
    fn get_errno(&self) -> (r: i32)
        ensures
            r == io_errno(*self),
            r & IO_ERROR == IO_ERROR,
    {
        let code: i32 = match raw_os_error(self) {
            Some(c) => c,
            None => 0,
        };
        let r = code | IO_ERROR;
        assert(r & 0x200 == 0x200) by (bit_vector)
            requires
                r == code | 0x200,
        ;
        r
    }
}

impl Errno for LibError {
    /// See `lib_errno`; for an I/O error, the number of the I/O error.
    fn get_errno(&self) -> (r: i32)
        ensures
            r == lib_errno(*self),
            *self is Io ==> r & IO_ERROR == IO_ERROR,
    {
        match self {
            LibError::Io(io) => io.get_errno(),
            LibError::Huffman(_) => 0x101,
            LibError::Hpack(_) => 0x102,
            LibError::NotConnected => 0x103,
            LibError::ConnectionClosed => 0x104,
            LibError::StreamClosed => 0x105,
            LibError::HeadersSent => 0x106,
            LibError::Invalid => 0x107,
            LibError::InvalidFrame => 0x108,
            LibError::InvalidUpgrade => 0x109,
            LibError::InvalidStream => 0x110,
            LibError::InvalidString => 0x111,
            LibError::NotAccepted => 0x112,
            LibError::ResetStream => 0x113,
            LibError::Goaway => 0x114,
            LibError::ProtocolError => 0x115,
        }
    }
}

} // verus!
