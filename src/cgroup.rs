use vstd::prelude::*;

use crate::paths::{join, join_path, to_vec};
use crate::Error;

verus! {

pub const SPACE: u8 = 32;
pub const COMMA: u8 = 44;
pub const NEWLINE: u8 = 10;

/// The pieces of `s` between occurrences of `sep`, in order; always at least one.
pub open spec fn split(s: Seq<u8>, sep: u8) -> Seq<Seq<u8>>
    decreases s.len(),
{
    if s.len() == 0 {
        seq![Seq::empty()]
    } else {
        let r = split(s.drop_last(), sep);
        if s.last() == sep {
            r.push(Seq::empty())
        } else {
            r.update(r.len() - 1, r.last().push(s.last()))
        }
    }
}

pub proof fn lemma_split_len(s: Seq<u8>, sep: u8)
    ensures
        split(s, sep).len() >= 1,
    decreases s.len(),
{
    if s.len() > 0 {
        lemma_split_len(s.drop_last(), sep);
    }
}

/// `cgroup`
pub open spec fn cgroup_word() -> Seq<u8> {
    seq![99u8, 103u8, 114u8, 111u8, 117u8, 112u8]
}

/// `0`
pub open spec fn zero_word() -> Seq<u8> {
    seq![48u8]
}

/// The mount point that a line of `/proc/mounts` gives for a cgroup controller, if the line
/// mounts a cgroup hierarchy with that controller among its options:
/// `<source> <mount point> cgroup <opt>,<opt>,... 0 0`.
pub open spec fn cgroup_mount_of(line: Seq<u8>, controller: Seq<u8>) -> Option<Seq<u8>> {
    let f = split(line, SPACE);
    if f.len() == 6 && f[2] == cgroup_word() && f[4] == zero_word() && f[5] == zero_word()
        && split(f[3], COMMA).contains(controller) {
        Some(f[1])
    } else {
        None
    }
}

/// The value that a cgroup attribute takes from its ancestors, listed nearest first: that of
/// the nearest ancestor whose value is not empty.
pub open spec fn inherited(chain: Seq<Seq<u8>>) -> Seq<u8>
    decreases chain.len(),
{
    if chain.len() == 0 {
        Seq::empty()
    } else if chain[0].len() > 0 {
        chain[0]
    } else {
        inherited(chain.drop_first())
    }
}

/// The directory of this jail's cgroup under a controller's mount point.
pub open spec fn cgroup_dir(mount: Seq<u8>, exec_name: Seq<u8>, id: Seq<u8>) -> Seq<u8> {
    join(join(join(mount, jailer_cgroup_word()), exec_name), id)
}

/// `firecracker`
pub open spec fn jailer_cgroup_word() -> Seq<u8> {
    seq![102u8, 105u8, 114u8, 101u8, 99u8, 114u8, 97u8, 99u8, 107u8, 101u8, 114u8]
}

/// Whether two byte strings are equal.
pub fn bytes_eq(a: &[u8], b: &[u8]) -> (r: bool)
    ensures
        r == (a@ == b@),
{
    if a.len() != b.len() {
        return false;
    }
    let mut i: usize = 0;
    while i < a.len()
        invariant
            a@.len() == b@.len(),
            i <= a@.len(),
            forall|j: int| 0 <= j < i ==> a@[j] == b@[j],
        decreases a@.len() - i,
    {
        if a[i] != b[i] {
            return false;
        }
        i = i + 1;
    }
    assert(a@ =~= b@);
    true
}

/// Splits `s` at every `sep`.
pub fn split_bytes(s: &[u8], sep: u8) -> (r: Vec<Vec<u8>>)
    ensures
        r@.len() == split(s@, sep).len(),
        forall|j: int| 0 <= j < r@.len() ==> (#[trigger] r@[j])@ == split(s@, sep)[j],
{
    let mut out: Vec<Vec<u8>> = Vec::new();
    let mut cur: Vec<u8> = Vec::new();
    let mut i: usize = 0;
    assert(s@.subrange(0, 0) =~= Seq::<u8>::empty());
    while i < s.len()
        invariant
            i <= s@.len(),
            out@.len() + 1 == split(s@.subrange(0, i as int), sep).len(),
            forall|j: int|
                0 <= j < out@.len() ==> (#[trigger] out@[j])@ == split(
                    s@.subrange(0, i as int),
                    sep,
                )[j],
            cur@ == split(s@.subrange(0, i as int), sep).last(),
        decreases s@.len() - i,
    {
        let ghost pre = s@.subrange(0, i as int);
        let ghost next = s@.subrange(0, i as int + 1);
        assert(next.drop_last() =~= pre);
        proof {
            lemma_split_len(pre, sep);
        }
        if s[i] == sep {
            out.push(cur);
            cur = Vec::new();
            assert(cur@ =~= split(next, sep).last());
        } else {
            cur.push(s[i]);
        }
        i = i + 1;
    }
    assert(s@.subrange(0, s@.len() as int) =~= s@);
    out.push(cur);
    out
}

/// Whether `items` holds `x`.
pub fn contains_bytes(items: &Vec<Vec<u8>>, x: &[u8]) -> (r: bool)
    ensures
        r == exists|j: int| 0 <= j < items@.len() && (#[trigger] items@[j])@ == x@,
{
    let mut i: usize = 0;
    while i < items.len()
        invariant
            i <= items@.len(),
            forall|j: int| 0 <= j < i ==> (#[trigger] items@[j])@ != x@,
        decreases items@.len() - i,
    {
        if bytes_eq(items[i].as_slice(), x) {
            return true;
        }
        i = i + 1;
    }
    false
}

/// The mount point that one line of `/proc/mounts` gives for `controller`, if any.
pub fn parse_mount_line(line: &[u8], controller: &[u8]) -> (r: Option<Vec<u8>>)
    ensures
        r is Some <==> cgroup_mount_of(line@, controller@) is Some,
        r matches Some(d) ==> cgroup_mount_of(line@, controller@) == Some(d@),
{
    let f = split_bytes(line, SPACE);
    if f.len() != 6 {
        return None;
    }
    let ghost fs = split(line@, SPACE);
    let cg: Vec<u8> = vec![99u8, 103u8, 114u8, 111u8, 117u8, 112u8];
    let zero: Vec<u8> = vec![48u8];
    assert(cg@ =~= cgroup_word());
    assert(zero@ =~= zero_word());
    if !bytes_eq(f[2].as_slice(), cg.as_slice()) || !bytes_eq(f[4].as_slice(), zero.as_slice())
        || !bytes_eq(f[5].as_slice(), zero.as_slice()) {
        return None;
    }
    let opts = split_bytes(f[3].as_slice(), COMMA);
    let ghost os = split(fs[3], COMMA);
    if !contains_bytes(&opts, controller) {
        assert(!os.contains(controller@)) by {
            if os.contains(controller@) {
                let k = choose|k: int| 0 <= k < os.len() && os[k] == controller@;
                assert(opts@[k]@ == controller@);
            }
        }
        return None;
    }
    assert(os.contains(controller@)) by {
        let j = choose|j: int| 0 <= j < opts@.len() && (#[trigger] opts@[j])@ == controller@;
        assert(os[j] == controller@);
    }
    Some(to_vec(f[1].as_slice()))
}

/// Finds the mount point of a controller among the lines of `/proc/mounts`. Exactly one line
/// must mount it.
pub fn find_controller_mount(mounts_file: &[u8], lines: &Vec<Vec<u8>>, controller: &[u8]) -> (r:
    Result<Vec<u8>, Error>)
    ensures
        r matches Ok(d) ==> exists|i: int|
            0 <= i < lines@.len() && cgroup_mount_of((#[trigger] lines@[i])@, controller@) == Some(
                d@,
            ) && forall|j: int|
                0 <= j < lines@.len() && j != i ==> cgroup_mount_of(
                    (#[trigger] lines@[j])@,
                    controller@,
                ) is None,
        (r is Err && r->Err_0 is CgroupLineNotFound) <==> forall|i: int|
            0 <= i < lines@.len() ==> cgroup_mount_of((#[trigger] lines@[i])@, controller@) is None,
        (r is Err && r->Err_0 is CgroupLineNotUnique) <==> exists|i: int, j: int|
            0 <= i < j < lines@.len() && cgroup_mount_of((#[trigger] lines@[i])@, controller@)
                is Some && cgroup_mount_of((#[trigger] lines@[j])@, controller@) is Some,
        r is Err ==> r->Err_0 is CgroupLineNotFound || r->Err_0 is CgroupLineNotUnique,
        r matches Err(Error::CgroupLineNotFound(f, c)) ==> f@ == mounts_file@ && c@ == controller@,
        r matches Err(Error::CgroupLineNotUnique(f, c)) ==> f@ == mounts_file@ && c@
            == controller@,
{
    let mut found: Option<Vec<u8>> = None;
    let mut at: usize = 0;
    let mut i: usize = 0;
    while i < lines.len()
        invariant
            i <= lines@.len(),
            found is None ==> forall|j: int|
                0 <= j < i ==> cgroup_mount_of((#[trigger] lines@[j])@, controller@) is None,
            found matches Some(d) ==> {
                &&& at < i
                &&& cgroup_mount_of(lines@[at as int]@, controller@) == Some(d@)
                &&& forall|j: int|
                    0 <= j < i && j != at ==> cgroup_mount_of(
                        (#[trigger] lines@[j])@,
                        controller@,
                    ) is None
            },
        decreases lines@.len() - i,
    {
        match parse_mount_line(lines[i].as_slice(), controller) {
            Some(d) => {
                if found.is_some() {
                    assert(cgroup_mount_of(lines@[at as int]@, controller@) is Some);
                    return Err(Error::CgroupLineNotUnique(to_vec(mounts_file), to_vec(controller)));
                }
                found = Some(d);
                at = i;
            },
            None => {},
        }
        i = i + 1;
    }
    match found {
        Some(d) => {
            assert(cgroup_mount_of(lines@[at as int]@, controller@) is Some);
            Ok(d)
        },
        None => Err(Error::CgroupLineNotFound(to_vec(mounts_file), to_vec(controller))),
    }
}


/// `cpu`, `cpuset` and `pids`: the controllers under which the jail gets a cgroup.
pub open spec fn controller_names() -> Seq<Seq<u8>> {
    seq![seq![99u8, 112u8, 117u8], seq![99u8, 112u8, 117u8, 115u8, 101u8, 116u8], seq![112u8, 105u8, 100u8, 115u8]]
}

/// `cpuset`
pub open spec fn cpuset_word() -> Seq<u8> {
    seq![99u8, 112u8, 117u8, 115u8, 101u8, 116u8]
}

/// `cpuset.mems`
pub open spec fn cpuset_mems_word() -> Seq<u8> {
    seq![99u8, 112u8, 117u8, 115u8, 101u8, 116u8, 46u8, 109u8, 101u8, 109u8, 115u8]
}

/// `cpuset.cpus`
pub open spec fn cpuset_cpus_word() -> Seq<u8> {
    seq![99u8, 112u8, 117u8, 115u8, 101u8, 116u8, 46u8, 99u8, 112u8, 117u8, 115u8]
}

/// `tasks`
pub open spec fn tasks_word() -> Seq<u8> {
    seq![116u8, 97u8, 115u8, 107u8, 115u8]
}

/// The bytes of a file's content without its trailing newlines.
pub open spec fn strip_newlines(s: Seq<u8>) -> Seq<u8>
    decreases s.len(),
{
    if s.len() > 0 && s.last() == NEWLINE {
        strip_newlines(s.drop_last())
    } else {
        s
    }
}

/// The views of a list of byte vectors.
pub open spec fn views(v: Seq<Vec<u8>>) -> Seq<Seq<u8>> {
    v.map_values(|x: Vec<u8>| x@)
}

/// An attribute file of a controller that is written before any task joins: either with a
/// given value, or (`None`) with the value inherited from the nearest ancestor that has one.
pub struct CgroupAttr {
    pub file: Vec<u8>,
    pub value: Option<Vec<u8>>,
}

/// Where the value of an attribute comes from; the NUMA node overrides inheritance for the
/// memory nodes of a cpuset.
pub open spec fn attr_plan(controller: Seq<u8>, numa_node: Seq<u8>) -> Seq<(Seq<u8>, Option<Seq<u8>>)> {
    if controller == cpuset_word() {
        seq![(cpuset_mems_word(), Some(numa_node)), (cpuset_cpus_word(), None)]
    } else {
        Seq::empty()
    }
}

/// The index of the nearest ancestor whose value is not empty at `k`.
pub open spec fn is_nearest_nonempty(chain: Seq<Seq<u8>>, k: int) -> bool {
    &&& 0 <= k < chain.len()
    &&& chain[k].len() > 0
    &&& forall|j: int| 0 <= j < k ==> (#[trigger] chain[j]).len() == 0
}

proof fn lemma_inherited_at(chain: Seq<Seq<u8>>, k: int)
    requires
        is_nearest_nonempty(chain, k),
    ensures
        inherited(chain) == chain[k],
    decreases k,
{
    if k > 0 {
        assert(chain[0].len() == 0);
        let t = chain.drop_first();
        assert forall|j: int| 0 <= j < k - 1 implies (#[trigger] t[j]).len() == 0 by {
            assert(t[j] == chain[j + 1]);
        }
        lemma_inherited_at(t, k - 1);
    }
}

/// Cpuset inheritance: wherever some ancestor holds a non-empty value, the inherited value is
/// that of the nearest ancestor that does, and so is not empty.
pub proof fn lemma_inherits_nearest_nonempty(chain: Seq<Seq<u8>>)
    requires
        exists|i: int| 0 <= i < chain.len() && (#[trigger] chain[i]).len() > 0,
    ensures
        exists|k: int| is_nearest_nonempty(chain, k) && inherited(chain) == chain[k],
        inherited(chain).len() > 0,
    decreases chain.len(),
{
    if chain[0].len() > 0 {
        assert(is_nearest_nonempty(chain, 0));
    } else {
        let t = chain.drop_first();
        let i = choose|i: int| 0 <= i < chain.len() && (#[trigger] chain[i]).len() > 0;
        assert(t[i - 1] == chain[i]);
        lemma_inherits_nearest_nonempty(t);
        let k = choose|k: int| is_nearest_nonempty(t, k) && inherited(t) == t[k];
        assert forall|j: int| 0 <= j < k + 1 implies (#[trigger] chain[j]).len() == 0 by {
            if j > 0 {
                assert(chain[j] == t[j - 1]);
            }
        }
        assert(is_nearest_nonempty(chain, k + 1));
    }
}

/// The value that an attribute of the cgroup at `dir` inherits from its ancestors' values
/// `chain`, nearest first, and the index of the ancestor it comes from. Every ancestor
/// nearer than that one holds an empty value and is filled with it too.
pub fn inherit_value(dir: &[u8], attr: &[u8], chain: &Vec<Vec<u8>>) -> (r: Result<
    (usize, Vec<u8>),
    Error,
>)
    ensures
        r matches Ok((k, v)) ==> is_nearest_nonempty(views(chain@), k as int) && v@ == chain@[k as int]@
            && v@ == inherited(views(chain@)),
        r is Err <==> forall|j: int| 0 <= j < chain@.len() ==> (#[trigger] chain@[j])@.len() == 0,
        r matches Err(e) ==> e matches Error::CgroupInheritFromParent(d, a) && d@ == dir@ && a@
            == attr@,
{
    let ghost vs = views(chain@);
    let mut i: usize = 0;
    while i < chain.len()
        invariant
            i <= chain@.len(),
            vs == views(chain@),
            forall|j: int| 0 <= j < i ==> (#[trigger] chain@[j])@.len() == 0,
        decreases chain@.len() - i,
    {
        if chain[i].len() > 0 {
            proof {
                assert forall|j: int| 0 <= j < i implies (#[trigger] vs[j]).len() == 0 by {
                    assert(chain@[j]@.len() == 0);
                }
                assert(is_nearest_nonempty(vs, i as int));
                lemma_inherited_at(vs, i as int);
            }
            return Ok((i, to_vec(chain[i].as_slice())));
        }
        i = i + 1;
    }
    Err(Error::CgroupInheritFromParent(to_vec(dir), to_vec(attr)))
}

/// The controllers under which the jail gets a cgroup.
pub fn controllers() -> (r: Vec<Vec<u8>>)
    ensures
        views(r@) == controller_names(),
{
    let r: Vec<Vec<u8>> = vec![vec![99u8, 112u8, 117u8], vec![99u8, 112u8, 117u8, 115u8, 101u8, 116u8], vec![112u8, 105u8, 100u8, 115u8]];
    assert(views(r@) =~= controller_names());
    r
}

/// The attribute files of `controller` that are filled before the jailer joins it.
pub fn controller_attrs(controller: &[u8], numa_node: &[u8]) -> (r: Vec<CgroupAttr>)
    ensures
        r@.len() == attr_plan(controller@, numa_node@).len(),
        forall|j: int|
            0 <= j < r@.len() ==> ((#[trigger] r@[j]).file@, match r@[j].value {
                Some(v) => Some(v@),
                None => None,
            }) == attr_plan(controller@, numa_node@)[j],
{
    let cpuset: Vec<u8> = vec![99u8, 112u8, 117u8, 115u8, 101u8, 116u8];
    assert(cpuset@ =~= cpuset_word());
    let mut r: Vec<CgroupAttr> = Vec::new();
    if bytes_eq(controller, cpuset.as_slice()) {
        let mems: Vec<u8> = vec![99u8, 112u8, 117u8, 115u8, 101u8, 116u8, 46u8, 109u8, 101u8, 109u8, 115u8];
        let cpus: Vec<u8> = vec![99u8, 112u8, 117u8, 115u8, 101u8, 116u8, 46u8, 99u8, 112u8, 117u8, 115u8];
        assert(mems@ =~= cpuset_mems_word());
        assert(cpus@ =~= cpuset_cpus_word());
        r.push(CgroupAttr { file: mems, value: Some(to_vec(numa_node)) });
        r.push(CgroupAttr { file: cpus, value: None });
    }
    r
}

/// The file to which the jailer's pid is written to join a cgroup.
pub fn tasks_file() -> (r: Vec<u8>)
    ensures
        r@ == tasks_word(),
{
    let r: Vec<u8> = vec![116u8, 97u8, 115u8, 107u8, 115u8];
    assert(r@ =~= tasks_word());
    r
}

/// The jail's cgroup directory under a controller's mount point, followed by its ancestors
/// up to that mount point, nearest first.
pub fn cgroup_dirs(mount: &[u8], exec_name: &[u8], id: &[u8]) -> (r: Vec<Vec<u8>>)
    ensures
        r@.len() == 4,
        r@[0]@ == cgroup_dir(mount@, exec_name@, id@),
        r@[1]@ == join(join(mount@, jailer_cgroup_word()), exec_name@),
        r@[2]@ == join(mount@, jailer_cgroup_word()),
        r@[3]@ == mount@,
{
    let fc: Vec<u8> = vec![102u8, 105u8, 114u8, 101u8, 99u8, 114u8, 97u8, 99u8, 107u8, 101u8, 114u8];
    assert(fc@ =~= jailer_cgroup_word());
    let top = join_path(mount, fc.as_slice());
    let exec_dir = join_path(top.as_slice(), exec_name);
    let leaf = join_path(exec_dir.as_slice(), id);
    let mut r: Vec<Vec<u8>> = Vec::new();
    r.push(leaf);
    r.push(exec_dir);
    r.push(top);
    r.push(to_vec(mount));
    r
}

/// The content of an attribute file without its trailing newlines.
pub fn trim_value(s: &[u8]) -> (r: Vec<u8>)
    ensures
        r@ == strip_newlines(s@),
{
    let mut n: usize = s.len();
    assert(s@.subrange(0, n as int) =~= s@);
    while n > 0 && s[n - 1] == NEWLINE
        invariant
            n <= s@.len(),
            strip_newlines(s@) == strip_newlines(s@.subrange(0, n as int)),
        decreases n,
    {
        assert(s@.subrange(0, n as int).drop_last() =~= s@.subrange(0, n - 1));
        n = n - 1;
    }
    let mut r: Vec<u8> = Vec::new();
    let mut i: usize = 0;
    while i < n
        invariant
            n <= s@.len(),
            i <= n,
            r@ == s@.subrange(0, i as int),
        decreases n - i,
    {
        r.push(s[i]);
        i = i + 1;
        assert(r@ =~= s@.subrange(0, i as int));
    }
    r
}

/// The attribute files to write, in order, so that the cgroup `dirs[0]` gets the value that
/// it inherits from its ancestors `dirs[1..]`, whose values are `chain`: first each ancestor
/// nearer than the one that holds the value, farthest first, then the cgroup itself.
pub fn inheritance_writes(dirs: &Vec<Vec<u8>>, attr: &[u8], chain: &Vec<Vec<u8>>) -> (r: Result<
    (Vec<Vec<u8>>, Vec<u8>),
    Error,
>)
    requires
        dirs@.len() == chain@.len() + 1,
    ensures
        r matches Ok((files, v)) ==> exists|k: int|
            {
                &&& is_nearest_nonempty(views(chain@), k)
                &&& v@ == chain@[k]@
                &&& files@.len() == k + 1
                &&& forall|i: int|
                    0 <= i <= k ==> (#[trigger] files@[i])@ == join(dirs@[k - i]@, attr@)
            },
        r is Err <==> forall|j: int| 0 <= j < chain@.len() ==> (#[trigger] chain@[j])@.len() == 0,
        r matches Err(e) ==> e matches Error::CgroupInheritFromParent(d, a) && d@ == dirs@[0]@
            && a@ == attr@,
{
    let (k, v) = match inherit_value(dirs[0].as_slice(), attr, chain) {
        Ok(found) => found,
        Err(e) => {
            return Err(e);
        },
    };
    assert(views(chain@).len() == chain@.len());
    let n = dirs.len();
    assert(k < chain@.len() < n);
    let mut files: Vec<Vec<u8>> = Vec::new();
    let mut i: usize = k + 1;
    while i > 0
        invariant
            k < chain@.len(),
            dirs@.len() == chain@.len() + 1,
            i <= k + 1,
            files@.len() == k + 1 - i,
            forall|m: int|
                0 <= m < files@.len() ==> (#[trigger] files@[m])@ == join(
                    dirs@[k - m]@,
                    attr@,
                ),
        decreases i,
    {
        i = i - 1;
        files.push(join_path(dirs[i].as_slice(), attr));
    }
    Ok((files, v))
}

/// A value to be written into a file.
pub struct FileWrite {
    pub path: Vec<u8>,
    pub value: Vec<u8>,
}

/// The value that an attribute of the plan ends up with, given its ancestors' values `chain`.
pub open spec fn attr_value(entry: (Seq<u8>, Option<Seq<u8>>), chain: Seq<Vec<u8>>) -> Seq<u8> {
    match entry.1 {
        Some(v) => v,
        None => inherited(views(chain)),
    }
}

/// Whether the plan's attribute inherits, with nothing to inherit from.
pub open spec fn nothing_to_inherit(entry: (Seq<u8>, Option<Seq<u8>>), chain: Seq<Vec<u8>>) -> bool {
    entry.1 is None && forall|k: int| 0 <= k < chain.len() ==> (#[trigger] chain[k])@.len() == 0
}

/// The writes, in order, that set up the jail's cgroup `dirs[0]` under `controller` and
/// join it. `dirs` is the cgroup followed by its ancestors, nearest first; `chains[j]` holds
/// the ancestors' values of the `j`-th attribute of `controller_attrs` where that attribute
/// inherits; `pid` is the jailer's process id. Every attribute of the cgroup is written
/// with its value before the pid is written into the cgroup's `tasks`, which comes last.
pub fn controller_writes(
    dirs: &Vec<Vec<u8>>,
    controller: &[u8],
    numa_node: &[u8],
    chains: &Vec<Vec<Vec<u8>>>,
    pid: &[u8],
) -> (r: Result<Vec<FileWrite>, Error>)
    requires
        dirs@.len() >= 1,
        chains@.len() == attr_plan(controller@, numa_node@).len(),
        forall|j: int|
            0 <= j < chains@.len() && (#[trigger] attr_plan(controller@, numa_node@)[j]).1 is None
                ==> dirs@.len() == chains@[j]@.len() + 1,
    ensures
        r is Err <==> exists|j: int|
            0 <= j < chains@.len() && nothing_to_inherit(
                #[trigger] attr_plan(controller@, numa_node@)[j],
                chains@[j]@,
            ),
        r matches Ok(w) ==> {
            &&& w@.len() >= 1
            &&& w@.last().path@ == join(dirs@[0]@, tasks_word())
            &&& w@.last().value@ == pid@
            &&& forall|j: int|
                0 <= j < chains@.len() ==> exists|i: int|
                    0 <= i < w@.len() - 1 && (#[trigger] w@[i]).path@ == join(
                        dirs@[0]@,
                        (#[trigger] attr_plan(controller@, numa_node@)[j]).0,
                    ) && w@[i].value@ == attr_value(
                        attr_plan(controller@, numa_node@)[j],
                        chains@[j]@,
                    )
        },
{
    let ghost plan = attr_plan(controller@, numa_node@);
    let attrs = controller_attrs(controller, numa_node);
    let mut w: Vec<FileWrite> = Vec::new();
    let ghost mut pos: Seq<int> = Seq::empty();
    let mut j: usize = 0;
    while j < attrs.len()
        invariant
            plan == attr_plan(controller@, numa_node@),
            attrs@.len() == plan.len() == chains@.len(),
            dirs@.len() >= 1,
            forall|jj: int|
                0 <= jj < attrs@.len() ==> ((#[trigger] attrs@[jj]).file@, match attrs@[jj].value {
                    Some(v) => Some(v@),
                    None => None,
                }) == plan[jj],
            forall|jj: int|
                0 <= jj < chains@.len() && (#[trigger] plan[jj]).1 is None ==> dirs@.len()
                    == chains@[jj]@.len() + 1,
            j <= attrs@.len(),
            pos.len() == j,
            forall|jj: int| 0 <= jj < j ==> !nothing_to_inherit(#[trigger] plan[jj], chains@[jj]@),
            forall|jj: int|
                0 <= jj < j ==> {
                    &&& 0 <= #[trigger] pos[jj] < w@.len()
                    &&& w@[pos[jj]].path@ == join(dirs@[0]@, plan[jj].0)
                    &&& w@[pos[jj]].value@ == attr_value(plan[jj], chains@[jj]@)
                },
        decreases attrs@.len() - j,
    {
        let ghost entry = plan[j as int];
        match &attrs[j].value {
            Some(v) => {
                let ghost at = w@.len() as int;
                w.push(FileWrite { path: join_path(dirs[0].as_slice(), attrs[j].file.as_slice()), value: to_vec(v.as_slice()) });
                proof {
                    pos = pos.push(at);
                }
            },
            None => {
                assert(entry.1 is None);
                match inheritance_writes(dirs, attrs[j].file.as_slice(), &chains[j]) {
                    Err(e) => {
                        assert(nothing_to_inherit(plan[j as int], chains@[j as int]@));
                        return Err(e);
                    },
                    Ok((files, v)) => {
                        let ghost k = choose|k: int|
                            {
                                &&& is_nearest_nonempty(views(chains@[j as int]@), k)
                                &&& v@ == chains@[j as int]@[k]@
                                &&& files@.len() == k + 1
                                &&& forall|i: int|
                                    0 <= i <= k ==> (#[trigger] files@[i])@ == join(
                                        dirs@[k - i]@,
                                        attrs@[j as int].file@,
                                    )
                            };
                        proof {
                            lemma_inherited_at(views(chains@[j as int]@), k);
                            assert(!nothing_to_inherit(plan[j as int], chains@[j as int]@)) by {
                                assert(views(chains@[j as int]@)[k] == chains@[j as int]@[k]@);
                            }
                        }
                        let ghost start = w@.len() as int;
                        let ghost w0 = w@;
                        let mut m: usize = 0;
                        while m < files.len()
                            invariant
                                m <= files@.len(),
                                w@.len() == start + m,
                                start == w0.len(),
                                forall|i: int| 0 <= i < start ==> w@[i] == w0[i],
                                forall|i: int|
                                    0 <= i < m ==> (#[trigger] w@[start + i]).path@
                                        == files@[i]@ && w@[start + i].value@ == v@,
                            decreases files@.len() - m,
                        {
                            w.push(FileWrite { path: to_vec(files[m].as_slice()), value: to_vec(v.as_slice()) });
                            m = m + 1;
                        }
                        proof {
                            assert(w@[start + k].path@ == files@[k]@);
                            pos = pos.push(start + k);
                        }
                    },
                }
            },
        }
        j = j + 1;
    }
    let ghost wb = w@;
    w.push(FileWrite { path: join_path(dirs[0].as_slice(), tasks_file().as_slice()), value: to_vec(pid) });
    assert forall|jj: int| 0 <= jj < chains@.len() implies exists|i: int|
        0 <= i < w@.len() - 1 && (#[trigger] w@[i]).path@ == join(
            dirs@[0]@,
            (#[trigger] attr_plan(controller@, numa_node@)[jj]).0,
        ) && w@[i].value@ == attr_value(attr_plan(controller@, numa_node@)[jj], chains@[jj]@) by {
        let i = pos[jj];
        assert(plan[jj] == attr_plan(controller@, numa_node@)[jj]);
        assert(0 <= i < wb.len());
        assert(w@[i] == wb[i]);
    }
    Ok(w)
}

} // verus!
