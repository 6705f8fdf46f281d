use jailer::env::{jail_steps, Env, JailerArgs, Step};
use jailer::fds::{check_kvm_fd, check_listener_fd, cloexec_cleared, fds_to_close};
use jailer::validators::ValidatorError;
use jailer::{Error, FirecrackerContext, KVM_FD, LISTENER_FD};

fn args(id: &str, exec_file: &str) -> JailerArgs {
    JailerArgs {
        id: id.as_bytes().to_vec(),
        exec_file: exec_file.as_bytes().to_vec(),
        exec_file_is_file: true,
        numa_node: b"0".to_vec(),
        uid: b"123".to_vec(),
        gid: b"456".to_vec(),
        chroot_base: b"/tmp/j".to_vec(),
        netns: None,
        daemonize: false,
        seccomp_level: b"0".to_vec(),
    }
}

fn pos(plan: &[Step], s: Step) -> usize {
    plan.iter().position(|x| *x == s).unwrap()
}

#[test]
fn happy_path_layout() {
    let env = Env::new(&args("alice", "/usr/bin/true"), 10, 20).unwrap();
    assert_eq!(env.id, b"alice".to_vec());
    assert_eq!(env.exec_file_name, b"true".to_vec());
    assert_eq!(env.chroot_dir, b"/tmp/j/true/alice/root".to_vec());
    assert_eq!(env.socket_path(), b"/tmp/j/true/alice/api.socket".to_vec());
    assert_eq!(env.exec_copy_path(), b"/tmp/j/true/alice/root/true".to_vec());
    assert_eq!(env.jailed_exec_path(), b"/true".to_vec());
    assert_eq!(env.numa_node, 0);
    assert_eq!(env.uid, 123);
    assert_eq!(env.gid, 456);
    assert_eq!(env.seccomp_level, 0);
    assert_eq!(env.netns, None);
    assert!(!env.daemonize);
    assert_eq!(env.start_time_us, 10);
    assert_eq!(env.start_time_cpu_us, 20);
}

#[test]
fn exec_arguments() {
    let mut a = args("alice", "/usr/bin/true");
    a.seccomp_level = b"2".to_vec();
    let env = Env::new(&a, 0, 0).unwrap();
    assert_eq!(
        env.exec_args(b"{}"),
        vec![
            b"--id=alice".to_vec(),
            b"--context={}".to_vec(),
            b"--seccomp-level=2".to_vec(),
        ]
    );
}

#[test]
fn bad_id_is_refused_first() {
    let mut a = args("../evil", "/usr/bin/true");
    a.uid = b"x".to_vec();
    assert_eq!(
        Env::new(&a, 0, 0).err(),
        Some(Error::InvalidInstanceId(ValidatorError::InvalidChar(b'.', 0)))
    );
}

#[test]
fn binary_must_be_a_file() {
    let mut a = args("alice", "/usr/bin");
    a.exec_file_is_file = false;
    assert_eq!(Env::new(&a, 0, 0).err(), Some(Error::NotAFile(b"/usr/bin".to_vec())));
    let a = args("alice", "/usr/bin/");
    assert_eq!(Env::new(&a, 0, 0).err(), Some(Error::FileName(b"/usr/bin/".to_vec())));
}

#[test]
fn numeric_options_are_checked_in_order() {
    let mut a = args("alice", "/usr/bin/true");
    a.numa_node = b"n0".to_vec();
    a.uid = b"-1".to_vec();
    assert_eq!(Env::new(&a, 0, 0).err(), Some(Error::NumaNode(b"n0".to_vec())));
    let mut a = args("alice", "/usr/bin/true");
    a.uid = b"-1".to_vec();
    a.gid = b"+4".to_vec();
    assert_eq!(Env::new(&a, 0, 0).err(), Some(Error::Uid(b"-1".to_vec())));
    let mut a = args("alice", "/usr/bin/true");
    a.gid = b"+4".to_vec();
    assert_eq!(Env::new(&a, 0, 0).err(), Some(Error::Gid(b"+4".to_vec())));
    let mut a = args("alice", "/usr/bin/true");
    a.seccomp_level = b"3".to_vec();
    assert_eq!(Env::new(&a, 0, 0).err(), Some(Error::SeccompLevel(b"3".to_vec())));
}

#[test]
fn netns_and_daemonize_are_kept() {
    let mut a = args("alice", "/usr/bin/true");
    a.netns = Some(b"/run/netns/x".to_vec());
    a.daemonize = true;
    let env = Env::new(&a, 0, 0).unwrap();
    assert_eq!(env.netns, Some(b"/run/netns/x".to_vec()));
    assert!(env.daemonize);
}

#[test]
fn plan_without_options() {
    let plan = jail_steps(false, false);
    assert_eq!(plan.len(), 19);
    assert_eq!(plan[0], Step::SanitizeFds);
    assert_eq!(plan[1], Step::OpenKvm);
    assert_eq!(*plan.last().unwrap(), Step::Exec);
    assert!(!plan.contains(&Step::JoinNetNs));
    assert!(!plan.contains(&Step::Daemonize));
    assert!(pos(&plan, Step::SetGid) < pos(&plan, Step::SetUid));
    assert!(pos(&plan, Step::UnshareMountNs) < pos(&plan, Step::BindMountRoot));
    assert!(pos(&plan, Step::BindMountRoot) < pos(&plan, Step::PivotRoot));
}

#[test]
fn plan_with_netns_joins_before_unshare() {
    let plan = jail_steps(true, false);
    assert_eq!(plan.len(), 20);
    assert!(pos(&plan, Step::JoinNetNs) < pos(&plan, Step::UnshareMountNs));
    assert!(pos(&plan, Step::JoinCgroups) < pos(&plan, Step::JoinNetNs));
}

#[test]
fn plan_with_daemonize_redirects_after_cloexec() {
    let plan = jail_steps(false, true);
    assert_eq!(plan.len(), 20);
    assert!(pos(&plan, Step::ClearCloexec) < pos(&plan, Step::Daemonize));
    assert!(pos(&plan, Step::SetUid) < pos(&plan, Step::Daemonize));
    assert_eq!(*plan.last().unwrap(), Step::Exec);
    assert_eq!(jail_steps(true, true).len(), 21);
}

#[test]
fn kvm_fd_must_be_reserved_slot() {
    assert_eq!(check_kvm_fd(3, 0), Ok(KVM_FD));
    assert_eq!(check_kvm_fd(5, 0), Err(Error::UnexpectedKvmFd(5)));
    assert_eq!(check_kvm_fd(-1, 2), Err(Error::OpenDevKvm(2)));
}

#[test]
fn listener_fd_must_be_reserved_slot() {
    assert_eq!(check_listener_fd(4), Ok(LISTENER_FD));
    assert_eq!(check_listener_fd(7), Err(Error::UnexpectedListenerFd(7)));
}

#[test]
fn cloexec_bit_is_cleared() {
    assert_eq!(cloexec_cleared(1, 0), Ok(0));
    assert_eq!(cloexec_cleared(3, 0), Ok(2));
    assert_eq!(cloexec_cleared(0, 0), Ok(0));
    assert_eq!(cloexec_cleared(-1, 9), Err(Error::GetOldFdFlags(9)));
}

#[test]
fn descriptors_to_close() {
    assert_eq!(fds_to_close(1024), (3, 1024));
    assert_eq!(fds_to_close(1), (3, 3));
    assert_eq!(fds_to_close(-1), (3, 3));
    assert_eq!(fds_to_close(i64::MAX), (3, i32::MAX));
}

#[test]
fn jailed_context() {
    let c = FirecrackerContext::jailed("alice".to_string(), 1, 7, 8);
    assert_eq!(c.id, "alice");
    assert!(c.jailed);
    assert_eq!(c.seccomp_level, 1);
    assert_eq!(c.start_time_us, 7);
    assert_eq!(c.start_time_cpu_us, 8);
}

#[test]
fn non_text_paths_are_refused() {
    let mut a = args("alice", "/usr/bin/true");
    a.exec_file = vec![b'/', 0xff];
    a.uid = b"x".to_vec();
    assert_eq!(Env::new(&a, 0, 0).err(), Some(Error::OsStringParsing(vec![b'/', 0xff])));
    let mut a = args("alice", "/usr/bin/true");
    a.chroot_base = vec![b'/', 0x80];
    assert_eq!(Env::new(&a, 0, 0).err(), Some(Error::OsStringParsing(vec![b'/', 0x80])));
    let mut a = args("alice", "/usr/bin/true");
    a.netns = Some(vec![b'/', 0xc3]);
    assert_eq!(Env::new(&a, 0, 0).err(), Some(Error::OsStringParsing(vec![b'/', 0xc3])));
    let mut a = args("../evil", "/usr/bin/true");
    a.exec_file = vec![0xff];
    assert!(matches!(Env::new(&a, 0, 0).err(), Some(Error::InvalidInstanceId(_))));
}
