use vstd::prelude::*;

use crate::paths::{append, file_name, is_utf8, join, join_path, path_file_name, to_vec};
use vstd::utf8::valid_utf8;
use crate::validators::{parse_u32, strict_u32, valid_instance_id, validate_instance_id};
use crate::Error;

verus! {

/// The greatest seccomp level that the target understands.
pub const MAX_SECCOMP_LEVEL: u32 = 2;

/// `root`
pub open spec fn root_word() -> Seq<u8> {
    seq![114u8, 111u8, 111u8, 116u8]
}

/// `api.socket`
pub open spec fn api_socket_word() -> Seq<u8> {
    seq![97u8, 112u8, 105u8, 46u8, 115u8, 111u8, 99u8, 107u8, 101u8, 116u8]
}

/// `<base>/<exec name>/<id>`: the directory that holds everything of one jail.
pub open spec fn jail_dir_of(base: Seq<u8>, exec_name: Seq<u8>, id: Seq<u8>) -> Seq<u8> {
    join(join(base, exec_name), id)
}

/// `<base>/<exec name>/<id>/root`: the directory that becomes the jail's root.
pub open spec fn chroot_dir_of(base: Seq<u8>, exec_name: Seq<u8>, id: Seq<u8>) -> Seq<u8> {
    join(jail_dir_of(base, exec_name, id), root_word())
}

/// `<base>/<exec name>/<id>/api.socket`: where the API listener is bound.
pub open spec fn socket_path_of(base: Seq<u8>, exec_name: Seq<u8>, id: Seq<u8>) -> Seq<u8> {
    join(jail_dir_of(base, exec_name, id), api_socket_word())
}

/// The jailer's options as it was invoked with them, before validation. `exec_file` is the
/// target binary's canonical path, and `exec_file_is_file` whether it names a regular file.
pub struct JailerArgs {
    pub id: Vec<u8>,
    pub exec_file: Vec<u8>,
    pub exec_file_is_file: bool,
    pub numa_node: Vec<u8>,
    pub uid: Vec<u8>,
    pub gid: Vec<u8>,
    pub chroot_base: Vec<u8>,
    pub netns: Option<Vec<u8>>,
    pub daemonize: bool,
    pub seccomp_level: Vec<u8>,
}

/// A seccomp level as written: a strict decimal no greater than the greatest level.
pub open spec fn seccomp_level_of(s: Seq<u8>) -> Option<u32> {
    match strict_u32(s) {
        Some(l) => if l <= MAX_SECCOMP_LEVEL {
            Some(l)
        } else {
            None
        },
        None => None,
    }
}

/// Whether every path among the options is text.
pub open spec fn paths_text(a: JailerArgs) -> bool {
    &&& valid_utf8(a.exec_file@)
    &&& valid_utf8(a.chroot_base@)
    &&& (a.netns matches Some(n) ==> valid_utf8(n@))
}

/// Whether the options describe a jail that can be built.
pub open spec fn args_valid(a: JailerArgs) -> bool {
    &&& valid_instance_id(a.id@)
    &&& paths_text(a)
    &&& a.exec_file_is_file
    &&& file_name(a.exec_file@).len() > 0
    &&& strict_u32(a.numa_node@) is Some
    &&& strict_u32(a.uid@) is Some
    &&& strict_u32(a.gid@) is Some
    &&& seccomp_level_of(a.seccomp_level@) is Some
}

/// The validated configuration of one jail.
pub struct Env {
    pub id: Vec<u8>,
    pub exec_file_path: Vec<u8>,
    pub exec_file_name: Vec<u8>,
    pub chroot_base: Vec<u8>,
    pub chroot_dir: Vec<u8>,
    pub numa_node: u32,
    pub numa_node_text: Vec<u8>,
    pub uid: u32,
    pub gid: u32,
    pub netns: Option<Vec<u8>>,
    pub daemonize: bool,
    pub seccomp_level: u32,
    pub start_time_us: u64,
    pub start_time_cpu_us: u64,
}

impl Env {
    /// The configuration is consistent: its id is valid, its paths are derived from its
    /// base, binary and id, and its seccomp level is one the target understands.
    pub open spec fn wf(&self) -> bool {
        &&& valid_instance_id(self.id@)
        &&& self.exec_file_name@.len() > 0
        &&& self.exec_file_name@ == file_name(self.exec_file_path@)
        &&& self.chroot_dir@ == chroot_dir_of(self.chroot_base@, self.exec_file_name@, self.id@)
        &&& strict_u32(self.numa_node_text@) == Some(self.numa_node)
        &&& self.seccomp_level <= MAX_SECCOMP_LEVEL
    }

    /// Validates the options. They are checked in this order, and the first that fails
    /// decides the error: the id, that the paths are text, the binary, the NUMA node, the uid, the gid and the
    /// seccomp level. Nothing is touched outside the process.
    pub fn new(a: &JailerArgs, start_time_us: u64, start_time_cpu_us: u64) -> (r: Result<
        Env,
        Error,
    >)
        ensures
            r is Ok <==> args_valid(*a),
            !valid_instance_id(a.id@) ==> r matches Err(Error::InvalidInstanceId(_)),
            valid_instance_id(a.id@) && !valid_utf8(a.exec_file@) ==> (r matches Err(
                Error::OsStringParsing(p),
            ) && p@ == a.exec_file@),
            valid_instance_id(a.id@) && valid_utf8(a.exec_file@) && !valid_utf8(a.chroot_base@)
                ==> (r matches Err(Error::OsStringParsing(p)) && p@ == a.chroot_base@),
            valid_instance_id(a.id@) && valid_utf8(a.exec_file@) && valid_utf8(a.chroot_base@)
                && a.netns is Some && !valid_utf8(a.netns->Some_0@) ==> (r matches Err(
                Error::OsStringParsing(p),
            ) && p@ == a.netns->Some_0@),
            valid_instance_id(a.id@) && paths_text(*a) && !a.exec_file_is_file ==> (r matches Err(
                Error::NotAFile(p),
            ) && p@ == a.exec_file@),
            valid_instance_id(a.id@) && paths_text(*a) && a.exec_file_is_file && file_name(a.exec_file@).len()
                == 0 ==> (r matches Err(Error::FileName(p)) && p@ == a.exec_file@),
            valid_instance_id(a.id@) && paths_text(*a) && a.exec_file_is_file && file_name(a.exec_file@).len() > 0
                && strict_u32(a.numa_node@) is None ==> (r matches Err(Error::NumaNode(t)) && t@
                == a.numa_node@),
            valid_instance_id(a.id@) && paths_text(*a) && a.exec_file_is_file && file_name(a.exec_file@).len() > 0
                && strict_u32(a.numa_node@) is Some && strict_u32(a.uid@) is None ==> (r matches Err(
                Error::Uid(t),
            ) && t@ == a.uid@),
            valid_instance_id(a.id@) && paths_text(*a) && a.exec_file_is_file && file_name(a.exec_file@).len() > 0
                && strict_u32(a.numa_node@) is Some && strict_u32(a.uid@) is Some && strict_u32(
                a.gid@,
            ) is None ==> (r matches Err(Error::Gid(t)) && t@ == a.gid@),
            valid_instance_id(a.id@) && paths_text(*a) && a.exec_file_is_file && file_name(a.exec_file@).len() > 0
                && strict_u32(a.numa_node@) is Some && strict_u32(a.uid@) is Some && strict_u32(
                a.gid@,
            ) is Some && seccomp_level_of(a.seccomp_level@) is None ==> (r matches Err(
                Error::SeccompLevel(t),
            ) && t@ == a.seccomp_level@),
            r matches Ok(e) ==> {
                &&& e.wf()
                &&& e.id@ == a.id@
                &&& e.exec_file_path@ == a.exec_file@
                &&& e.chroot_base@ == a.chroot_base@
                &&& Some(e.numa_node) == strict_u32(a.numa_node@)
                &&& e.numa_node_text@ == a.numa_node@
                &&& Some(e.uid) == strict_u32(a.uid@)
                &&& Some(e.gid) == strict_u32(a.gid@)
                &&& Some(e.seccomp_level) == seccomp_level_of(a.seccomp_level@)
                &&& e.netns is Some == a.netns is Some
                &&& (e.netns matches Some(n) ==> n@ == a.netns->Some_0@)
                &&& e.daemonize == a.daemonize
                &&& e.start_time_us == start_time_us
                &&& e.start_time_cpu_us == start_time_cpu_us
            },
    {
        match validate_instance_id(a.id.as_slice()) {
            Ok(()) => {},
            Err(e) => {
                return Err(Error::InvalidInstanceId(e));
            },
        }
        if !is_utf8(a.exec_file.as_slice()) {
            return Err(Error::OsStringParsing(to_vec(a.exec_file.as_slice())));
        }
        if !is_utf8(a.chroot_base.as_slice()) {
            return Err(Error::OsStringParsing(to_vec(a.chroot_base.as_slice())));
        }
        match &a.netns {
            Some(n) => {
                if !is_utf8(n.as_slice()) {
                    return Err(Error::OsStringParsing(to_vec(n.as_slice())));
                }
            },
            None => {},
        }
        if !a.exec_file_is_file {
            return Err(Error::NotAFile(to_vec(a.exec_file.as_slice())));
        }
        let exec_file_name = match path_file_name(a.exec_file.as_slice()) {
            Some(n) => n,
            None => {
                return Err(Error::FileName(to_vec(a.exec_file.as_slice())));
            },
        };
        let numa_node = match parse_u32(a.numa_node.as_slice()) {
            Some(n) => n,
            None => {
                return Err(Error::NumaNode(to_vec(a.numa_node.as_slice())));
            },
        };
        let uid = match parse_u32(a.uid.as_slice()) {
            Some(n) => n,
            None => {
                return Err(Error::Uid(to_vec(a.uid.as_slice())));
            },
        };
        let gid = match parse_u32(a.gid.as_slice()) {
            Some(n) => n,
            None => {
                return Err(Error::Gid(to_vec(a.gid.as_slice())));
            },
        };
        let seccomp_level = match parse_u32(a.seccomp_level.as_slice()) {
            Some(l) => {
                if l > MAX_SECCOMP_LEVEL {
                    return Err(Error::SeccompLevel(to_vec(a.seccomp_level.as_slice())));
                }
                l
            },
            None => {
                return Err(Error::SeccompLevel(to_vec(a.seccomp_level.as_slice())));
            },
        };
        let jail_dir = join_path(
            join_path(a.chroot_base.as_slice(), exec_file_name.as_slice()).as_slice(),
            a.id.as_slice(),
        );
        let root: Vec<u8> = vec![114u8, 111u8, 111u8, 116u8];
        assert(root@ =~= root_word());
        let chroot_dir = join_path(jail_dir.as_slice(), root.as_slice());
        let netns = match &a.netns {
            Some(n) => Some(to_vec(n.as_slice())),
            None => None,
        };
        Ok(Env {
            id: to_vec(a.id.as_slice()),
            exec_file_path: to_vec(a.exec_file.as_slice()),
            exec_file_name,
            chroot_base: to_vec(a.chroot_base.as_slice()),
            chroot_dir,
            numa_node,
            numa_node_text: to_vec(a.numa_node.as_slice()),
            uid,
            gid,
            netns,
            daemonize: a.daemonize,
            seccomp_level,
            start_time_us,
            start_time_cpu_us,
        })
    }

    /// Where the API listener is bound on the host: beside the jail's root.
    pub fn socket_path(&self) -> (r: Vec<u8>)
        ensures
            r@ == socket_path_of(self.chroot_base@, self.exec_file_name@, self.id@),
    {
        let jail_dir = join_path(
            join_path(self.chroot_base.as_slice(), self.exec_file_name.as_slice()).as_slice(),
            self.id.as_slice(),
        );
        let sock: Vec<u8> = vec![97u8, 112u8, 105u8, 46u8, 115u8, 111u8, 99u8, 107u8, 101u8, 116u8];
        assert(sock@ =~= api_socket_word());
        join_path(jail_dir.as_slice(), sock.as_slice())
    }

    /// Where the target binary is copied to, on the host.
    pub fn exec_copy_path(&self) -> (r: Vec<u8>)
        ensures
            r@ == join(self.chroot_dir@, self.exec_file_name@),
    {
        join_path(self.chroot_dir.as_slice(), self.exec_file_name.as_slice())
    }

    /// The target binary's path once the jail's root is the process's root.
    pub fn jailed_exec_path(&self) -> (r: Vec<u8>)
        ensures
            r@ == seq![crate::paths::SLASH] + self.exec_file_name@,
    {
        let mut r: Vec<u8> = Vec::new();
        r.push(crate::paths::SLASH);
        append(&mut r, self.exec_file_name.as_slice());
        r
    }

    /// The arguments the target is started with: its id, its serialized context and its
    /// seccomp level.
    pub fn exec_args(&self, context: &[u8]) -> (r: Vec<Vec<u8>>)
        requires
            self.wf(),
        ensures
            r@.len() == 3,
            r@[0]@ == seq![45u8, 45u8, 105u8, 100u8, 61u8] + self.id@,
            r@[1]@ == seq![45u8, 45u8, 99u8, 111u8, 110u8, 116u8, 101u8, 120u8, 116u8, 61u8] + context@,
            r@[2]@ == seq![45u8, 45u8, 115u8, 101u8, 99u8, 99u8, 111u8, 109u8, 112u8, 45u8, 108u8, 101u8, 118u8, 101u8, 108u8, 61u8].push((48 + self.seccomp_level) as u8),
    {
        let mut id_arg: Vec<u8> = vec![45u8, 45u8, 105u8, 100u8, 61u8];
        append(&mut id_arg, self.id.as_slice());
        let mut context_arg: Vec<u8> = vec![45u8, 45u8, 99u8, 111u8, 110u8, 116u8, 101u8, 120u8, 116u8, 61u8];
        append(&mut context_arg, context);
        let mut level_arg: Vec<u8> = vec![45u8, 45u8, 115u8, 101u8, 99u8, 99u8, 111u8, 109u8, 112u8, 45u8, 108u8, 101u8, 118u8, 101u8, 108u8, 61u8];
        level_arg.push((48 + self.seccomp_level) as u8);
        let mut r: Vec<Vec<u8>> = Vec::new();
        r.push(id_arg);
        r.push(context_arg);
        r.push(level_arg);
        r
    }
}

/// One step of building a jail.
#[derive(PartialEq, Eq, Structural, Clone, Copy, Debug)]
pub enum Step {
    /// Close every inherited descriptor but the standard streams.
    SanitizeFds,
    /// Open `/dev/kvm`, which must land on its reserved descriptor.
    OpenKvm,
    /// Create the jail's root directory and its parents.
    CreateChrootDir,
    /// Bind the API listener beside the jail's root; it must land on its reserved descriptor.
    BindApiSocket,
    /// Let the reserved descriptors survive `exec`.
    ClearCloexec,
    /// Create the jail's cgroups, fill their attributes and join them.
    JoinCgroups,
    /// Enter the given network namespace.
    JoinNetNs,
    /// Enter a mount namespace of the jail's own.
    UnshareMountNs,
    /// Copy the target binary into the jail's root.
    CopyExecFile,
    /// Create `/dev/net/tun` in the jail and give it to the target's user and group.
    MakeDevNetTun,
    /// Stop mounts from propagating out of the new namespace.
    MountPropagationPrivate,
    /// Bind-mount the jail's root onto itself.
    BindMountRoot,
    /// Change into the jail's root.
    ChdirNewRoot,
    /// Create the directory that receives the old root.
    MkdirOldRoot,
    /// Make the jail's root the process's root.
    PivotRoot,
    /// Detach the old root.
    UmountOldRoot,
    /// Remove the directory that held the old root.
    RemoveOldRoot,
    /// Switch to the target's group.
    SetGid,
    /// Switch to the target's user.
    SetUid,
    /// Start a new session and point the standard streams at `/dev/null`.
    Daemonize,
    /// Replace the jailer with the target binary.
    Exec,
}

/// The place of each step in the one order in which steps may be taken.
pub open spec fn rank(s: Step) -> int {
    match s {
        Step::SanitizeFds => 0,
        Step::OpenKvm => 1,
        Step::CreateChrootDir => 2,
        Step::BindApiSocket => 3,
        Step::ClearCloexec => 4,
        Step::JoinCgroups => 5,
        Step::JoinNetNs => 6,
        Step::UnshareMountNs => 7,
        Step::CopyExecFile => 8,
        Step::MakeDevNetTun => 9,
        Step::MountPropagationPrivate => 10,
        Step::BindMountRoot => 11,
        Step::ChdirNewRoot => 12,
        Step::MkdirOldRoot => 13,
        Step::PivotRoot => 14,
        Step::UmountOldRoot => 15,
        Step::RemoveOldRoot => 16,
        Step::SetGid => 17,
        Step::SetUid => 18,
        Step::Daemonize => 19,
        Step::Exec => 20,
    }
}

/// The number of kinds of step.
pub const STEP_COUNT: u8 = 21;

/// Whether a jail with these options takes the step: joining a network namespace and
/// daemonizing are taken only where asked for, every other step always.
pub open spec fn step_taken(s: Step, netns: bool, daemonize: bool) -> bool {
    match s {
        Step::JoinNetNs => netns,
        Step::Daemonize => daemonize,
        _ => true,
    }
}

fn step_at(k: u8) -> (r: Step)
    requires
        k < STEP_COUNT,
    ensures
        rank(r) == k,
{
    if k == 0 {
        Step::SanitizeFds
    } else if k == 1 {
        Step::OpenKvm
    } else if k == 2 {
        Step::CreateChrootDir
    } else if k == 3 {
        Step::BindApiSocket
    } else if k == 4 {
        Step::ClearCloexec
    } else if k == 5 {
        Step::JoinCgroups
    } else if k == 6 {
        Step::JoinNetNs
    } else if k == 7 {
        Step::UnshareMountNs
    } else if k == 8 {
        Step::CopyExecFile
    } else if k == 9 {
        Step::MakeDevNetTun
    } else if k == 10 {
        Step::MountPropagationPrivate
    } else if k == 11 {
        Step::BindMountRoot
    } else if k == 12 {
        Step::ChdirNewRoot
    } else if k == 13 {
        Step::MkdirOldRoot
    } else if k == 14 {
        Step::PivotRoot
    } else if k == 15 {
        Step::UmountOldRoot
    } else if k == 16 {
        Step::RemoveOldRoot
    } else if k == 17 {
        Step::SetGid
    } else if k == 18 {
        Step::SetUid
    } else if k == 19 {
        Step::Daemonize
    } else {
        Step::Exec
    }
}

fn is_taken(s: Step, netns: bool, daemonize: bool) -> (r: bool)
    ensures
        r == step_taken(s, netns, daemonize),
{
    match s {
        Step::JoinNetNs => netns,
        Step::Daemonize => daemonize,
        _ => true,
    }
}

/// The steps that build a jail, in the order in which they are taken. Every step is taken
/// at most once and none goes back: each comes later in the order than all before it. The
/// plan holds exactly the steps that these options call for.
pub fn jail_steps(netns: bool, daemonize: bool) -> (r: Vec<Step>)
    ensures
        forall|i: int, j: int| 0 <= i < j < r@.len() ==> rank(r@[i]) < rank(r@[j]),
        forall|s: Step| r@.contains(s) <==> step_taken(s, netns, daemonize),
{
    let mut v: Vec<Step> = Vec::new();
    let mut k: u8 = 0;
    while k < STEP_COUNT
        invariant
            k <= STEP_COUNT,
            forall|i: int, j: int| 0 <= i < j < v@.len() ==> rank(v@[i]) < rank(v@[j]),
            forall|i: int|
                0 <= i < v@.len() ==> rank(#[trigger] v@[i]) < k && step_taken(
                    v@[i],
                    netns,
                    daemonize,
                ),
            forall|s: Step|
                rank(s) < k && step_taken(s, netns, daemonize) ==> #[trigger] v@.contains(s),
        decreases STEP_COUNT - k,
    {
        let s = step_at(k);
        if is_taken(s, netns, daemonize) {
            let ghost old_v = v@;
            v.push(s);
            assert forall|t: Step|
                rank(t) < k + 1 && step_taken(t, netns, daemonize) implies #[trigger] v@.contains(
                t,
            ) by {
                if rank(t) < k {
                    assert(old_v.contains(t));
                    let i = choose|i: int| 0 <= i < old_v.len() && old_v[i] == t;
                    assert(v@[i] == t);
                } else {
                    assert(t == s);
                    assert(v@[v@.len() - 1] == t);
                }
            }
        } else {
            assert forall|t: Step|
                rank(t) < k + 1 && step_taken(t, netns, daemonize) implies #[trigger] v@.contains(
                t,
            ) by {
                if rank(t) == k {
                    assert(t == s);
                }
            }
        }
        k = k + 1;
    }
    assert forall|s: Step| v@.contains(s) implies step_taken(s, netns, daemonize) by {
        let i = choose|i: int| 0 <= i < v@.len() && v@[i] == s;
    }
    v
}

/// Every `a` of the plan comes before every `b`, and the plan holds both.
pub open spec fn comes_before(plan: Seq<Step>, a: Step, b: Step) -> bool {
    &&& plan.contains(a)
    &&& plan.contains(b)
    &&& forall|i: int, j: int|
        0 <= i < plan.len() && 0 <= j < plan.len() && plan[i] == a && plan[j] == b ==> i < j
}

/// What `jail_steps` promises of its plan.
pub open spec fn is_jail_plan(plan: Seq<Step>, netns: bool, daemonize: bool) -> bool {
    &&& forall|i: int, j: int| 0 <= i < j < plan.len() ==> rank(plan[i]) < rank(plan[j])
    &&& forall|s: Step| plan.contains(s) <==> step_taken(s, netns, daemonize)
}

proof fn lemma_before_by_rank(plan: Seq<Step>, netns: bool, daemonize: bool, a: Step, b: Step)
    requires
        is_jail_plan(plan, netns, daemonize),
        step_taken(a, netns, daemonize),
        step_taken(b, netns, daemonize),
        rank(a) < rank(b),
    ensures
        comes_before(plan, a, b),
{
    assert(plan.contains(a));
    assert(plan.contains(b));
    assert forall|i: int, j: int|
        0 <= i < plan.len() && 0 <= j < plan.len() && plan[i] == a && plan[j] == b implies i
        < j by {
        if j < i {
            assert(rank(plan[j]) < rank(plan[i]));
        }
    }
}

/// Privileges are dropped in order: the group is switched before the user, while the
/// process may still change it, and both before the target runs.
pub proof fn lemma_gid_before_uid(plan: Seq<Step>, netns: bool, daemonize: bool)
    requires
        is_jail_plan(plan, netns, daemonize),
    ensures
        comes_before(plan, Step::SetGid, Step::SetUid),
        comes_before(plan, Step::PivotRoot, Step::SetGid),
        comes_before(plan, Step::SetUid, Step::Exec),
{
    lemma_before_by_rank(plan, netns, daemonize, Step::SetGid, Step::SetUid);
    lemma_before_by_rank(plan, netns, daemonize, Step::PivotRoot, Step::SetGid);
    lemma_before_by_rank(plan, netns, daemonize, Step::SetUid, Step::Exec);
}

/// The descriptors are prepared first and kept: inherited descriptors are closed and then
/// `/dev/kvm` is opened with nothing in between; the listener is bound and both lose
/// close-on-exec before the standard streams are redirected; `exec` is the last step.
pub proof fn lemma_fd_preparation(plan: Seq<Step>, netns: bool, daemonize: bool)
    requires
        is_jail_plan(plan, netns, daemonize),
    ensures
        plan.len() >= 2,
        plan[0] == Step::SanitizeFds,
        plan[1] == Step::OpenKvm,
        comes_before(plan, Step::BindApiSocket, Step::ClearCloexec),
        comes_before(plan, Step::ClearCloexec, Step::Exec),
        daemonize ==> comes_before(plan, Step::ClearCloexec, Step::Daemonize),
        plan.last() == Step::Exec,
{
    assert(plan.contains(Step::SanitizeFds));
    assert(plan.contains(Step::OpenKvm));
    assert(plan.contains(Step::Exec));
    let i0 = choose|i: int| 0 <= i < plan.len() && plan[i] == Step::SanitizeFds;
    let i1 = choose|i: int| 0 <= i < plan.len() && plan[i] == Step::OpenKvm;
    let ie = choose|i: int| 0 <= i < plan.len() && plan[i] == Step::Exec;
    assert(i0 == 0) by {
        if i0 > 0 {
            assert(rank(plan[0]) < rank(plan[i0]));
        }
    }
    assert(plan.len() >= 2) by {
        if plan.len() < 2 {
            assert(i1 == 0);
        }
    }
    assert(i1 == 1) by {
        if i1 > 1 {
            assert(rank(plan[1]) < rank(plan[i1]));
            assert(rank(plan[0]) < rank(plan[1]));
        }
    }
    assert(ie == plan.len() - 1) by {
        if ie < plan.len() - 1 {
            assert(rank(plan[ie]) < rank(plan[plan.len() - 1]));
        }
    }
    lemma_before_by_rank(plan, netns, daemonize, Step::BindApiSocket, Step::ClearCloexec);
    lemma_before_by_rank(plan, netns, daemonize, Step::ClearCloexec, Step::Exec);
    if daemonize {
        lemma_before_by_rank(plan, netns, daemonize, Step::ClearCloexec, Step::Daemonize);
    }
}

/// The root is replaced only inside the jail's own mount namespace, entered after any
/// network namespace: the namespace is unshared before mount propagation is made private,
/// the root is bind-mounted before the pivot, and the old root is detached after it.
pub proof fn lemma_mount_order(plan: Seq<Step>, netns: bool, daemonize: bool)
    requires
        is_jail_plan(plan, netns, daemonize),
    ensures
        netns ==> comes_before(plan, Step::JoinNetNs, Step::UnshareMountNs),
        !netns ==> !plan.contains(Step::JoinNetNs),
        comes_before(plan, Step::UnshareMountNs, Step::MountPropagationPrivate),
        comes_before(plan, Step::MountPropagationPrivate, Step::BindMountRoot),
        comes_before(plan, Step::BindMountRoot, Step::PivotRoot),
        comes_before(plan, Step::CopyExecFile, Step::PivotRoot),
        comes_before(plan, Step::MakeDevNetTun, Step::PivotRoot),
        comes_before(plan, Step::PivotRoot, Step::UmountOldRoot),
        comes_before(plan, Step::UmountOldRoot, Step::RemoveOldRoot),
        comes_before(plan, Step::JoinCgroups, Step::Exec),
{
    if netns {
        lemma_before_by_rank(plan, netns, daemonize, Step::JoinNetNs, Step::UnshareMountNs);
    }
    lemma_before_by_rank(plan, netns, daemonize, Step::UnshareMountNs, Step::MountPropagationPrivate);
    lemma_before_by_rank(plan, netns, daemonize, Step::MountPropagationPrivate, Step::BindMountRoot);
    lemma_before_by_rank(plan, netns, daemonize, Step::BindMountRoot, Step::PivotRoot);
    lemma_before_by_rank(plan, netns, daemonize, Step::CopyExecFile, Step::PivotRoot);
    lemma_before_by_rank(plan, netns, daemonize, Step::MakeDevNetTun, Step::PivotRoot);
    lemma_before_by_rank(plan, netns, daemonize, Step::PivotRoot, Step::UmountOldRoot);
    lemma_before_by_rank(plan, netns, daemonize, Step::UmountOldRoot, Step::RemoveOldRoot);
    lemma_before_by_rank(plan, netns, daemonize, Step::JoinCgroups, Step::Exec);
}

} // verus!
