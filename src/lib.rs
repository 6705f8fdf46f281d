use vstd::prelude::*;

pub mod cgroup;
pub mod env;
pub mod fds;
pub mod paths;
pub mod validators;

use validators::ValidatorError;

verus! {

/// The file descriptor on which the jailed process finds `/dev/kvm`.
pub const KVM_FD: i32 = 3;

/// The file descriptor on which the jailed process finds the API listener.
pub const LISTENER_FD: i32 = 4;

/// What the jailed process is told about itself when it starts.
pub struct FirecrackerContext {
    pub id: String,
    pub jailed: bool,
    pub seccomp_level: u32,
    pub start_time_us: u64,
    pub start_time_cpu_us: u64,
}

impl FirecrackerContext {
    /// The context of a process that runs inside a jail.
    pub fn jailed(id: String, seccomp_level: u32, start_time_us: u64, start_time_cpu_us: u64) -> (r:
        FirecrackerContext)
        ensures
            r.id@ == id@,
            r.jailed,
            r.seccomp_level == seccomp_level,
            r.start_time_us == start_time_us,
            r.start_time_cpu_us == start_time_cpu_us,
    {
        FirecrackerContext { id, jailed: true, seccomp_level, start_time_us, start_time_cpu_us }
    }
}

/// Everything that can stop a jail from being built. Paths are raw bytes; an operating
/// system error is its `errno`.
#[derive(Debug, Clone, PartialEq, Eq)]
pub enum Error {
    Canonicalize(Vec<u8>, i32),
    CgroupInheritFromParent(Vec<u8>, Vec<u8>),
    CgroupLineNotFound(Vec<u8>, Vec<u8>),
    CgroupLineNotUnique(Vec<u8>, Vec<u8>),
    ChangeDevNetTunOwner(i32),
    ChdirNewRoot(i32),
    CloseNetNsFd(i32),
    CloseDevNullFd(i32),
    Copy(Vec<u8>, Vec<u8>, i32),
    CreateDir(Vec<u8>, i32),
    CStringParsing(Vec<u8>, usize),
    Dup2(i32),
    Exec(i32),
    FileName(Vec<u8>),
    FileOpen(Vec<u8>, i32),
    GetOldFdFlags(i32),
    Gid(Vec<u8>),
    InvalidInstanceId(ValidatorError),
    Metadata(Vec<u8>, i32),
    MkdirOldRoot(i32),
    MknodDevNetTun(i32),
    MountBind(i32),
    MountPropagationPrivate(i32),
    NotAFile(Vec<u8>),
    NumaNode(Vec<u8>),
    OpenDevKvm(i32),
    OpenDevNull(i32),
    OsStringParsing(Vec<u8>),
    PivotRoot(i32),
    ReadToString(Vec<u8>, i32),
    RmOldRootDir(i32),
    SeccompLevel(Vec<u8>),
    SetGid(i32),
    SetNetNs(i32),
    SetSid(i32),
    SetUid(i32),
    Uid(Vec<u8>),
    UmountOldRoot(i32),
    UnexpectedKvmFd(i32),
    UnexpectedListenerFd(i32),
    UnshareNewNs(i32),
    UnixListener(i32),
    UnsetCloexec(i32),
    Write(Vec<u8>, i32),
}

} // verus!
