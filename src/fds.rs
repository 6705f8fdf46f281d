use vstd::prelude::*;

use crate::{Error, KVM_FD, LISTENER_FD};

verus! {

/// The close-on-exec bit of a descriptor's flags.
pub const FD_CLOEXEC: i32 = 1;

/// The first descriptor after the standard streams.
pub const FIRST_FREE_FD: i32 = 3;

/// The descriptors `[lo, hi)` that are closed before the jail is built: every one from the
/// first after the standard streams up to the process's limit on open files.
pub fn fds_to_close(open_max: i64) -> (r: (i32, i32))
    ensures
        r.0 == FIRST_FREE_FD,
        r.1 == (if open_max < FIRST_FREE_FD {
            FIRST_FREE_FD as int
        } else if open_max > i32::MAX {
            i32::MAX as int
        } else {
            open_max as int
        }),
{
    if open_max < FIRST_FREE_FD as i64 {
        (FIRST_FREE_FD, FIRST_FREE_FD)
    } else if open_max > i32::MAX as i64 {
        (FIRST_FREE_FD, i32::MAX)
    } else {
        (FIRST_FREE_FD, open_max as i32)
    }
}

/// Judges what opening `/dev/kvm` returned (`ret`, with `errno` where it failed): the
/// descriptor must be the one reserved for it.
pub fn check_kvm_fd(ret: i32, errno: i32) -> (r: Result<i32, Error>)
    ensures
        r is Ok <==> ret == KVM_FD,
        r matches Ok(fd) ==> fd == KVM_FD,
        ret < 0 ==> r == Err::<i32, Error>(Error::OpenDevKvm(errno)),
        ret >= 0 && ret != KVM_FD ==> r == Err::<i32, Error>(Error::UnexpectedKvmFd(ret)),
{
    if ret < 0 {
        Err(Error::OpenDevKvm(errno))
    } else if ret != KVM_FD {
        Err(Error::UnexpectedKvmFd(ret))
    } else {
        Ok(ret)
    }
}

/// Judges the descriptor of the API listener: it must be the one reserved for it.
pub fn check_listener_fd(fd: i32) -> (r: Result<i32, Error>)
    ensures
        r is Ok <==> fd == LISTENER_FD,
        r matches Ok(x) ==> x == LISTENER_FD,
        fd != LISTENER_FD ==> r == Err::<i32, Error>(Error::UnexpectedListenerFd(fd)),
{
    if fd != LISTENER_FD {
        Err(Error::UnexpectedListenerFd(fd))
    } else {
        Ok(fd)
    }
}

/// The flags to set on a descriptor so that it survives `exec`, given the flags it has
/// (`flags`, with `errno` where reading them failed).
pub fn cloexec_cleared(flags: i32, errno: i32) -> (r: Result<i32, Error>)
    ensures
        flags < 0 ==> r == Err::<i32, Error>(Error::GetOldFdFlags(errno)),
        flags >= 0 ==> r == Ok::<i32, Error>(flags & !FD_CLOEXEC),
        r matches Ok(f) ==> f & FD_CLOEXEC == 0 && f | FD_CLOEXEC == flags | FD_CLOEXEC,
{
    if flags < 0 {
        return Err(Error::GetOldFdFlags(errno));
    }
    let f = flags & !FD_CLOEXEC;
    assert(f & 1 == 0 && f | 1 == flags | 1) by (bit_vector)
        requires
            f == flags & !1i32,
    ;
    Ok(f)
}

} // verus!
