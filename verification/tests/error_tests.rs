//! Kernel error codes and what they mean.

use ripset::error::{
    classify, Error, IPSET_ERR_EXIST, IPSET_ERR_INVALID_FAMILY, IPSET_ERR_IPADDR_IPV4,
    IPSET_ERR_IPADDR_IPV6, IPSET_ERR_PROTOCOL, KERNEL_EACCES, KERNEL_EAFNOSUPPORT, KERNEL_EBUSY,
    KERNEL_EEXIST, KERNEL_EINVAL, KERNEL_ENOENT, KERNEL_EOPNOTSUPP, KERNEL_EPERM,
};

#[test]
fn the_codes_are_negated_errno_values() {
    assert_eq!(KERNEL_EPERM, -1);
    assert_eq!(KERNEL_ENOENT, -2);
    assert_eq!(KERNEL_EACCES, -13);
    assert_eq!(KERNEL_EBUSY, -16);
    assert_eq!(KERNEL_EEXIST, -17);
    assert_eq!(KERNEL_EINVAL, -22);
    assert_eq!(KERNEL_EOPNOTSUPP, -95);
    assert_eq!(KERNEL_EAFNOSUPPORT, -97);
    assert_eq!(IPSET_ERR_PROTOCOL, -4097);
    assert_eq!(IPSET_ERR_EXIST, -4103);
}

#[test]
fn no_such_object_is_not_found() {
    assert!(matches!(classify(KERNEL_ENOENT), Error::NotFound));
}

#[test]
fn object_exists_is_already_exists() {
    assert!(matches!(classify(KERNEL_EEXIST), Error::AlreadyExists));
}

#[test]
fn a_refused_caller_is_permission_denied() {
    assert!(matches!(classify(KERNEL_EPERM), Error::PermissionDenied));
    assert!(matches!(classify(KERNEL_EACCES), Error::PermissionDenied));
}

#[test]
fn an_operation_the_kernel_does_not_have_is_unsupported() {
    assert!(matches!(classify(KERNEL_EOPNOTSUPP), Error::Unsupported));
}

#[test]
fn the_family_codes_are_family_mismatch() {
    assert!(matches!(classify(KERNEL_EAFNOSUPPORT), Error::FamilyMismatch));
    assert!(matches!(classify(IPSET_ERR_INVALID_FAMILY), Error::FamilyMismatch));
    assert!(matches!(classify(IPSET_ERR_IPADDR_IPV4), Error::FamilyMismatch));
    assert!(matches!(classify(IPSET_ERR_IPADDR_IPV6), Error::FamilyMismatch));
}

#[test]
fn any_other_code_is_handed_on_with_a_description() {
    match classify(KERNEL_EBUSY) {
        Error::ProtocolError(code, message) => {
            assert_eq!(code, -16);
            assert_eq!(message, "object is in use");
        }
        other => panic!("{:?}", other),
    }
    match classify(KERNEL_EINVAL) {
        Error::ProtocolError(code, message) => {
            assert_eq!(code, -22);
            assert_eq!(message, "invalid argument");
        }
        other => panic!("{:?}", other),
    }
    match classify(IPSET_ERR_PROTOCOL) {
        Error::ProtocolError(code, message) => {
            assert_eq!(code, -4097);
            assert_eq!(message, "ipset protocol error");
        }
        other => panic!("{:?}", other),
    }
    match classify(-12345) {
        Error::ProtocolError(code, message) => {
            assert_eq!(code, -12345);
            assert_eq!(message, "kernel error");
        }
        other => panic!("{:?}", other),
    }
    assert!(matches!(classify(i32::MIN), Error::ProtocolError(i32::MIN, _)));
    assert!(matches!(classify(5), Error::ProtocolError(5, _)));
}

#[test]
fn every_error_has_a_sentence() {
    assert_eq!(Error::NotFound.message(), "no such table, set or member");
    assert_eq!(Error::AlreadyExists.message(), "object already exists");
    assert_eq!(Error::FamilyMismatch.message(), "address family does not match the set");
    assert_eq!(Error::Unsupported.message(), "Unsupported operation in this backend");
    assert_eq!(Error::Timeout.message(), "timed out waiting for the kernel");
    assert_eq!(Error::Malformed.message(), "malformed netlink message");
    assert_eq!(Error::PermissionDenied.message(), "permission denied");
    assert_eq!(Error::ProtocolError(-16, "busy".to_string()).message(), "busy");
}
