use jailer::cgroup::{
    cgroup_dirs, controller_attrs, controller_writes, controllers, find_controller_mount, inherit_value, inheritance_writes,
    parse_mount_line, split_bytes, tasks_file, trim_value,
};
use jailer::Error;

const MOUNTS: &[u8] = b"/proc/mounts";

fn lines(text: &str) -> Vec<Vec<u8>> {
    text.lines().map(|l| l.as_bytes().to_vec()).collect()
}

#[test]
fn split_keeps_empty_pieces() {
    assert_eq!(
        split_bytes(b"a,,b", b','),
        vec![b"a".to_vec(), Vec::new(), b"b".to_vec()]
    );
    assert_eq!(split_bytes(b"", b','), vec![Vec::<u8>::new()]);
    assert_eq!(split_bytes(b"x,", b','), vec![b"x".to_vec(), Vec::new()]);
}

#[test]
fn mount_line_gives_controller_mount_point() {
    let line = b"cgroup /sys/fs/cgroup/cpuset cgroup rw,nosuid,nodev,noexec,relatime,cpuset 0 0";
    assert_eq!(
        parse_mount_line(line, b"cpuset"),
        Some(b"/sys/fs/cgroup/cpuset".to_vec())
    );
    assert_eq!(parse_mount_line(line, b"cpu"), None);
    let cpu = b"cgroup /sys/fs/cgroup/cpu,cpuacct cgroup rw,nosuid,cpu,cpuacct 0 0";
    assert_eq!(
        parse_mount_line(cpu, b"cpu"),
        Some(b"/sys/fs/cgroup/cpu,cpuacct".to_vec())
    );
}

#[test]
fn mount_line_of_other_filesystem_is_ignored() {
    assert_eq!(parse_mount_line(b"proc /proc proc rw,cpu 0 0", b"cpu"), None);
    assert_eq!(
        parse_mount_line(b"cgroup /sys/fs/cgroup/cpu cgroup rw,cpu 0 1", b"cpu"),
        None
    );
    assert_eq!(parse_mount_line(b"", b"cpu"), None);
}

#[test]
fn controller_mount_is_found_once() {
    let l = lines(
        "proc /proc proc rw 0 0\n\
         cgroup /sys/fs/cgroup/cpuset cgroup rw,cpuset 0 0\n\
         cgroup /sys/fs/cgroup/pids cgroup rw,pids 0 0\n",
    );
    assert_eq!(
        find_controller_mount(MOUNTS, &l, b"pids"),
        Ok(b"/sys/fs/cgroup/pids".to_vec())
    );
    assert_eq!(
        find_controller_mount(MOUNTS, &l, b"cpu"),
        Err(Error::CgroupLineNotFound(MOUNTS.to_vec(), b"cpu".to_vec()))
    );
}

#[test]
fn controller_mounted_twice_is_ambiguous() {
    let l = lines(
        "cgroup /a cgroup rw,cpuset 0 0\n\
         cgroup /b cgroup rw,cpuset 0 0\n",
    );
    assert_eq!(
        find_controller_mount(MOUNTS, &l, b"cpuset"),
        Err(Error::CgroupLineNotUnique(MOUNTS.to_vec(), b"cpuset".to_vec()))
    );
}

#[test]
fn empty_parent_inherits_from_grandparent() {
    let chain = vec![Vec::new(), b"0".to_vec()];
    assert_eq!(
        inherit_value(b"/c/firecracker/true/alice", b"cpuset.mems", &chain),
        Ok((1, b"0".to_vec()))
    );
}

#[test]
fn nearest_nonempty_ancestor_wins() {
    let chain = vec![Vec::new(), b"0-3".to_vec(), b"0-7".to_vec()];
    assert_eq!(
        inherit_value(b"/c/x", b"cpuset.cpus", &chain),
        Ok((1, b"0-3".to_vec()))
    );
    let chain = vec![b"2".to_vec(), b"0-7".to_vec()];
    assert_eq!(inherit_value(b"/c/x", b"cpuset.cpus", &chain), Ok((0, b"2".to_vec())));
}

#[test]
fn nothing_to_inherit_is_an_error() {
    let chain = vec![Vec::new(), Vec::new()];
    assert_eq!(
        inherit_value(b"/c/x", b"cpuset.mems", &chain),
        Err(Error::CgroupInheritFromParent(
            b"/c/x".to_vec(),
            b"cpuset.mems".to_vec()
        ))
    );
    assert_eq!(
        inherit_value(b"/c/x", b"cpuset.mems", &Vec::new()),
        Err(Error::CgroupInheritFromParent(
            b"/c/x".to_vec(),
            b"cpuset.mems".to_vec()
        ))
    );
}

#[test]
fn attribute_values_lose_trailing_newlines() {
    assert_eq!(trim_value(b"0-3\n"), b"0-3".to_vec());
    assert_eq!(trim_value(b"0\n\n"), b"0".to_vec());
    assert_eq!(trim_value(b"\n"), Vec::<u8>::new());
    assert_eq!(trim_value(b"1"), b"1".to_vec());
}

#[test]
fn known_controllers() {
    assert_eq!(
        controllers(),
        vec![b"cpu".to_vec(), b"cpuset".to_vec(), b"pids".to_vec()]
    );
    assert_eq!(tasks_file(), b"tasks".to_vec());
}

#[test]
fn cpuset_memory_nodes_come_from_numa_node() {
    let attrs = controller_attrs(b"cpuset", b"0");
    assert_eq!(attrs.len(), 2);
    assert_eq!(attrs[0].file, b"cpuset.mems".to_vec());
    assert_eq!(attrs[0].value, Some(b"0".to_vec()));
    assert_eq!(attrs[1].file, b"cpuset.cpus".to_vec());
    assert_eq!(attrs[1].value, None);
    assert!(controller_attrs(b"cpu", b"0").is_empty());
    assert!(controller_attrs(b"pids", b"1").is_empty());
}

#[test]
fn cgroup_directory_chain() {
    let dirs = cgroup_dirs(b"/sys/fs/cgroup/cpuset", b"true", b"alice");
    assert_eq!(
        dirs,
        vec![
            b"/sys/fs/cgroup/cpuset/firecracker/true/alice".to_vec(),
            b"/sys/fs/cgroup/cpuset/firecracker/true".to_vec(),
            b"/sys/fs/cgroup/cpuset/firecracker".to_vec(),
            b"/sys/fs/cgroup/cpuset".to_vec(),
        ]
    );
}

#[test]
fn empty_ancestors_are_filled_farthest_first() {
    let dirs = cgroup_dirs(b"/c", b"true", b"alice");
    let chain = vec![Vec::new(), Vec::new(), b"0-3".to_vec()];
    let (files, v) = inheritance_writes(&dirs, b"cpuset.cpus", &chain).unwrap();
    assert_eq!(v, b"0-3".to_vec());
    assert_eq!(
        files,
        vec![
            b"/c/firecracker/cpuset.cpus".to_vec(),
            b"/c/firecracker/true/cpuset.cpus".to_vec(),
            b"/c/firecracker/true/alice/cpuset.cpus".to_vec(),
        ]
    );
    let chain = vec![b"0".to_vec(), Vec::new(), Vec::new()];
    let (files, v) = inheritance_writes(&dirs, b"cpuset.mems", &chain).unwrap();
    assert_eq!(v, b"0".to_vec());
    assert_eq!(files, vec![b"/c/firecracker/true/alice/cpuset.mems".to_vec()]);
    let none = vec![Vec::new(), Vec::new(), Vec::new()];
    assert_eq!(
        inheritance_writes(&dirs, b"cpuset.mems", &none),
        Err(Error::CgroupInheritFromParent(
            b"/c/firecracker/true/alice".to_vec(),
            b"cpuset.mems".to_vec()
        ))
    );
}

fn writes(w: Vec<jailer::cgroup::FileWrite>) -> Vec<(Vec<u8>, Vec<u8>)> {
    w.into_iter().map(|x| (x.path, x.value)).collect()
}

#[test]
fn cpuset_is_filled_before_the_pid_joins() {
    let dirs = cgroup_dirs(b"/c", b"true", b"alice");
    let chains = vec![Vec::new(), vec![Vec::new(), b"0-3".to_vec(), b"0-7".to_vec()]];
    let w = controller_writes(&dirs, b"cpuset", b"0", &chains, b"42").unwrap();
    assert_eq!(
        writes(w),
        vec![
            (b"/c/firecracker/true/alice/cpuset.mems".to_vec(), b"0".to_vec()),
            (b"/c/firecracker/true/cpuset.cpus".to_vec(), b"0-3".to_vec()),
            (b"/c/firecracker/true/alice/cpuset.cpus".to_vec(), b"0-3".to_vec()),
            (b"/c/firecracker/true/alice/tasks".to_vec(), b"42".to_vec()),
        ]
    );
}

#[test]
fn other_controllers_only_join() {
    let dirs = cgroup_dirs(b"/c", b"true", b"alice");
    let w = controller_writes(&dirs, b"pids", b"0", &Vec::new(), b"7").unwrap();
    assert_eq!(
        writes(w),
        vec![(b"/c/firecracker/true/alice/tasks".to_vec(), b"7".to_vec())]
    );
}

#[test]
fn cpuset_without_cpus_to_inherit_fails() {
    let dirs = cgroup_dirs(b"/c", b"true", b"alice");
    let chains = vec![Vec::new(), vec![Vec::new(), Vec::new(), Vec::new()]];
    assert!(matches!(
        controller_writes(&dirs, b"cpuset", b"0", &chains, b"42"),
        Err(Error::CgroupInheritFromParent(_, _))
    ));
}
