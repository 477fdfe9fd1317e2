//! The errors of the library and the classification of kernel error codes.

use vstd::prelude::*;
use vstd::string::StringExecFns;

verus! {

/// Why an operation failed.
#[derive(Clone, Debug)]
pub enum Error {
    /// The kernel knows no such table, set or member.
    NotFound,
    /// The kernel already holds an object of that name, or the member.
    AlreadyExists,
    /// The width of an address does not match what the set was created for.
    FamilyMismatch,
    /// The backend has no such operation.
    Unsupported,
    /// No answer to the request arrived before the deadline.
    Timeout,
    /// A message or an attribute could not be decoded.
    Malformed,
    /// The process may not talk to the kernel subsystem.
    PermissionDenied,
    /// Any other error the kernel reported: its code as it came over the
    /// wire (a negated `errno`), and a description.
    ProtocolError(i32, String),
}

/// An [`Error`] as a mathematical value.
pub enum ErrorView {
    NotFound,
    AlreadyExists,
    FamilyMismatch,
    Unsupported,
    Timeout,
    Malformed,
    PermissionDenied,
    ProtocolError(i32, Seq<char>),
}

impl View for Error {
    type V = ErrorView;

    open spec fn view(&self) -> ErrorView {
        match *self {
            Error::NotFound => ErrorView::NotFound,
            Error::AlreadyExists => ErrorView::AlreadyExists,
            Error::FamilyMismatch => ErrorView::FamilyMismatch,
            Error::Unsupported => ErrorView::Unsupported,
            Error::Timeout => ErrorView::Timeout,
            Error::Malformed => ErrorView::Malformed,
            Error::PermissionDenied => ErrorView::PermissionDenied,
            Error::ProtocolError(code, message) => ErrorView::ProtocolError(code, message@),
        }
    }
}

/// `EPERM`, negated.
pub const KERNEL_EPERM: i32 = -1;

/// `ENOENT`, negated: no such object.
pub const KERNEL_ENOENT: i32 = -2;

/// `EACCES`, negated.
pub const KERNEL_EACCES: i32 = -13;

/// `EBUSY`, negated: the object is still in use.
pub const KERNEL_EBUSY: i32 = -16;

/// `EEXIST`, negated: the object exists.
pub const KERNEL_EEXIST: i32 = -17;

/// `EINVAL`, negated.
pub const KERNEL_EINVAL: i32 = -22;

/// `EOPNOTSUPP`, negated.
pub const KERNEL_EOPNOTSUPP: i32 = -95;

/// `EAFNOSUPPORT`, negated: the address family does not fit.
pub const KERNEL_EAFNOSUPPORT: i32 = -97;

/// ipset: the request does not follow the protocol, or its revision is not
/// the kernel's.
pub const IPSET_ERR_PROTOCOL: i32 = -4097;

/// ipset: the second set of a rename or swap is in the way.
pub const IPSET_ERR_EXIST_SETNAME2: i32 = -4101;

/// ipset: the two sets of a swap are not of one type.
pub const IPSET_ERR_TYPE_MISMATCH: i32 = -4102;

/// ipset: the member is already in the set (on add), or is not in it (on
/// del and test).
pub const IPSET_ERR_EXIST: i32 = -4103;

/// ipset: the set type does not support the protocol family.
pub const IPSET_ERR_INVALID_FAMILY: i32 = -4106;

/// ipset: an IPv4 address was expected.
pub const IPSET_ERR_IPADDR_IPV4: i32 = -4109;

/// ipset: an IPv6 address was expected.
pub const IPSET_ERR_IPADDR_IPV6: i32 = -4110;

/// The text that goes with a kernel error code in
/// [`Error::ProtocolError`].
pub open spec fn describe(code: i32) -> Seq<char> {
    if code == KERNEL_EBUSY {
        "object is in use"@
    } else if code == KERNEL_EINVAL {
        "invalid argument"@
    } else if code == IPSET_ERR_PROTOCOL {
        "ipset protocol error"@
    } else if code == IPSET_ERR_EXIST {
        "member exists or is missing"@
    } else {
        "kernel error"@
    }
}

/// What a nonzero kernel error code means to the caller.
pub open spec fn classify_spec(code: i32) -> ErrorView {
    if code == KERNEL_ENOENT {
        ErrorView::NotFound
    } else if code == KERNEL_EEXIST {
        ErrorView::AlreadyExists
    } else if code == KERNEL_EPERM || code == KERNEL_EACCES {
        ErrorView::PermissionDenied
    } else if code == KERNEL_EOPNOTSUPP {
        ErrorView::Unsupported
    } else if code == KERNEL_EAFNOSUPPORT || code == IPSET_ERR_INVALID_FAMILY || code
        == IPSET_ERR_IPADDR_IPV4 || code == IPSET_ERR_IPADDR_IPV6 {
        ErrorView::FamilyMismatch
    } else {
        ErrorView::ProtocolError(code, describe(code))
    }
}

/// Classifies the error code of a kernel acknowledgement.
///
/// "No such object" and "object exists" get their own variants, as do the
/// codes for a refused caller, an unknown operation and an address of the
/// wrong family. Every other code is handed on unchanged in
/// [`Error::ProtocolError`].
pub fn classify(code: i32) -> (e: Error)
    ensures
        e@ == classify_spec(code),
{
    if code == KERNEL_ENOENT {
        Error::NotFound
    } else if code == KERNEL_EEXIST {
        Error::AlreadyExists
    } else if code == KERNEL_EPERM || code == KERNEL_EACCES {
        Error::PermissionDenied
    } else if code == KERNEL_EOPNOTSUPP {
        Error::Unsupported
    } else if code == KERNEL_EAFNOSUPPORT || code == IPSET_ERR_INVALID_FAMILY || code
        == IPSET_ERR_IPADDR_IPV4 || code == IPSET_ERR_IPADDR_IPV6 {
        Error::FamilyMismatch
    } else {
        let text = if code == KERNEL_EBUSY {
            "object is in use"
        } else if code == KERNEL_EINVAL {
            "invalid argument"
        } else if code == IPSET_ERR_PROTOCOL {
            "ipset protocol error"
        } else if code == IPSET_ERR_EXIST {
            "member exists or is missing"
        } else {
            "kernel error"
        };
        Error::ProtocolError(code, String::from_str(text))
    }
}

impl Error {
    /// A sentence for the error, for a log or a terminal.
    pub fn message(&self) -> (s: String)
        ensures
            s@ == self@.message(),
    {
        match self {
            Error::NotFound => String::from_str("no such table, set or member"),
            Error::AlreadyExists => String::from_str("object already exists"),
            Error::FamilyMismatch => String::from_str(
                "address family does not match the set",
            ),
            Error::Unsupported => String::from_str("Unsupported operation in this backend"),
            Error::Timeout => String::from_str("timed out waiting for the kernel"),
            Error::Malformed => String::from_str("malformed netlink message"),
            Error::PermissionDenied => String::from_str("permission denied"),
            Error::ProtocolError(_, message) => message.clone(),
        }
    }
}

impl ErrorView {
    /// The sentence that [`Error::message`] returns.
    pub open spec fn message(self) -> Seq<char> {
        match self {
            ErrorView::NotFound => "no such table, set or member"@,
            ErrorView::AlreadyExists => "object already exists"@,
            ErrorView::FamilyMismatch => "address family does not match the set"@,
            ErrorView::Unsupported => "Unsupported operation in this backend"@,
            ErrorView::Timeout => "timed out waiting for the kernel"@,
            ErrorView::Malformed => "malformed netlink message"@,
            ErrorView::PermissionDenied => "permission denied"@,
            ErrorView::ProtocolError(_, message) => message,
        }
    }
}

} // verus!
