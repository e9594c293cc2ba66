//! Command lines for the Linux sandbox `bwrap`.
//!
//! The sandbox sees the system paths of the host read-only, with the user's home
//! directory hidden. What tools need from the home directory is mounted back, and
//! the project is mounted writable on top. A later mount covers an earlier one, and
//! what no mount covers is not there.

use vstd::prelude::*;

use crate::paths::{is_absolute, is_rooted, under, under_any};
use crate::restricted_fs::{system_paths, system_read_paths};
use crate::sandbox::{SandboxError, SandboxPolicy};

verus! {

/// A runner of commands in `bwrap`.
#[derive(Debug)]
pub struct BubblewrapRunner {
    /// Directories that may be written.
    pub allowed_write_roots: Vec<String>,
    /// Directories that may be read, but not written.
    pub extra_read_roots: Vec<String>,
    /// Directories of tools.
    pub tool_roots: Vec<String>,
    pub policy: SandboxPolicy,
}

/// What is said when `bwrap` is missing.
pub const BWRAP_MISSING: &'static str =
    "bwrap not found on $PATH. Install it with:\n\nDebian/Ubuntu: apt install bubblewrap\nFedora/RHEL:   dnf install bubblewrap\nArch:          pacman -S bubblewrap\n\nOr run without --sandbox to disable sandboxing.";

/// What a command line depends on besides the runner: the home directory, the
/// single files of the user that hold no secrets, and which of the paths exist.
#[derive(Debug)]
pub struct Host {
    pub home: Option<String>,
    pub system_paths_exist: Vec<bool>,
    pub config_files: Vec<String>,
    pub config_files_exist: Vec<bool>,
    pub tool_roots_exist: Vec<bool>,
    pub read_roots_exist: Vec<bool>,
    pub write_roots_exist: Vec<bool>,
}

/// The model of a mount.
#[verifier::ext_equal]
pub enum Mount {
    /// The path as on the host, read-only.
    ReadOnly(Seq<char>),
    /// The path as on the host, writable.
    Writable(Seq<char>),
    /// An empty directory at the path.
    Empty(Seq<char>),
    /// The device directory.
    Devices,
    /// The process directory.
    Processes,
}

/// The arguments for a mount.
pub open spec fn mount_args(m: Mount) -> Seq<Seq<char>> {
    match m {
        Mount::ReadOnly(p) => seq!["--ro-bind"@, p, p],
        Mount::Writable(p) => seq!["--bind"@, p, p],
        Mount::Empty(p) => seq!["--tmpfs"@, p],
        Mount::Devices => seq!["--dev"@, "/dev"@],
        Mount::Processes => seq!["--proc"@, "/proc"@],
    }
}

/// The arguments for a run of mounts.
pub open spec fn mounts_args(ms: Seq<Mount>) -> Seq<Seq<char>>
    decreases ms.len(),
{
    if ms.len() == 0 {
        Seq::empty()
    } else {
        mounts_args(ms.drop_last()) + mount_args(ms.last())
    }
}

/// The paths of `roots` that exist.
pub open spec fn existing(roots: Seq<Seq<char>>, exist: Seq<bool>) -> Seq<Seq<char>>
    decreases roots.len(),
{
    if roots.len() == 0 {
        Seq::empty()
    } else {
        let before = existing(roots.drop_last(), exist);
        if exist[roots.len() - 1] {
            before.push(roots.last())
        } else {
            before
        }
    }
}

/// The paths that are mounted read-only on top of the empty home directory.
pub open spec fn shown(r: BubblewrapRunner, host: Host) -> Seq<Seq<char>> {
    existing(r.tool_roots.deep_view(), host.tool_roots_exist@) + existing(
        host.config_files.deep_view(),
        host.config_files_exist@,
    ) + existing(r.extra_read_roots.deep_view(), host.read_roots_exist@)
}

/// The paths that are mounted writable.
pub open spec fn writable(r: BubblewrapRunner, host: Host) -> Seq<Seq<char>> {
    existing(r.allowed_write_roots.deep_view(), host.write_roots_exist@)
}

/// Read-only mounts of `paths`.
pub open spec fn read_only(paths: Seq<Seq<char>>) -> Seq<Mount> {
    paths.map_values(|p: Seq<char>| Mount::ReadOnly(p))
}

/// Writable mounts of `paths`.
pub open spec fn read_write(paths: Seq<Seq<char>>) -> Seq<Mount> {
    paths.map_values(|p: Seq<char>| Mount::Writable(p))
}

/// The system paths of the host: those that tools need, and where a host that
/// resolves names by a service of its own keeps the configuration of the resolver.
pub open spec fn mounted_system() -> Seq<Seq<char>> {
    system_paths(false).push("/run/systemd/resolve"@)
}

/// The system paths of the host, to be looked up and mounted.
pub fn system_mounts() -> (r: Vec<String>)
    ensures
        r.deep_view() == mounted_system(),
{
    let mut paths = system_read_paths(false);
    paths.push("/run/systemd/resolve".to_owned());
    assert(paths.deep_view() =~= mounted_system());
    paths
}

/// The system paths that are mounted read-only.
pub open spec fn system_shown(host: Host) -> Seq<Seq<char>> {
    existing(mounted_system(), host.system_paths_exist@)
}

/// The system and the hidden home directory.
pub open spec fn base_mounts(host: Host) -> Seq<Mount> {
    read_only(system_shown(host)) + (match host.home {
        Some(home) => seq![Mount::Empty(home@)],
        None => Seq::empty(),
    })
}

/// The directories that every sandbox has of its own.
pub open spec fn own_mounts() -> Seq<Mount> {
    seq![Mount::Empty("/tmp"@), Mount::Devices, Mount::Processes]
}

/// All mounts of a sandbox, in order.
pub open spec fn mounts(r: BubblewrapRunner, host: Host) -> Seq<Mount> {
    base_mounts(host) + read_only(shown(r, host)) + read_write(writable(r, host)) + own_mounts()
}

/// The whole command line.
pub open spec fn command_line(
    r: BubblewrapRunner,
    host: Host,
    command: Seq<char>,
    cwd: Option<Seq<char>>,
) -> Seq<Seq<char>> {
    mounts_args(mounts(r, host)) + (if r.policy == SandboxPolicy::Restricted {
        seq!["--unshare-net"@]
    } else {
        Seq::empty()
    }) + seq!["--die-with-parent"@] + (match cwd {
        Some(dir) if is_rooted(dir) => seq!["--chdir"@, dir],
        _ => Seq::empty(),
    }) + seq!["--"@, "bash"@, "-c"@, command]
}

proof fn lemma_mounts_args_add(a: Seq<Mount>, b: Seq<Mount>)
    ensures
        mounts_args(a + b) == mounts_args(a) + mounts_args(b),
    decreases b.len(),
{
    if b.len() == 0 {
        assert(a + b =~= a);
        assert(mounts_args(a) + mounts_args(b) =~= mounts_args(a));
    } else {
        assert((a + b).drop_last() =~= a + b.drop_last());
        lemma_mounts_args_add(a, b.drop_last());
        assert(mounts_args(a + b) =~= mounts_args(a) + mounts_args(b));
    }
}

proof fn lemma_mounts_args_push(ms: Seq<Mount>, m: Mount)
    ensures
        mounts_args(ms.push(m)) == mounts_args(ms) + mount_args(m),
        mounts_args(Seq::<Mount>::empty()) == Seq::<Seq<char>>::empty(),
{
    assert(ms.push(m).drop_last() =~= ms);
}

fn add_arg(args: &mut Vec<String>, arg: &str)
    ensures
        final(args).deep_view() == old(args).deep_view().push(arg@),
{
    args.push(arg.to_owned());
    assert(args.deep_view() =~= old(args).deep_view().push(arg@));
}

/// Appends a mount of each existing path, read-only or writable.
fn add_binds(args: &mut Vec<String>, write: bool, roots: &Vec<String>, exist: &Vec<bool>)
    requires
        roots@.len() == exist@.len(),
    ensures
        final(args).deep_view() == old(args).deep_view() + mounts_args(
            if write {
                read_write(existing(roots.deep_view(), exist@))
            } else {
                read_only(existing(roots.deep_view(), exist@))
            },
        ),
{
    let ghost start = args.deep_view();
    let ghost all = roots.deep_view();
    let ghost binds = |paths: Seq<Seq<char>>|
        if write {
            read_write(paths)
        } else {
            read_only(paths)
        };
    assert(binds(existing(all.take(0), exist@)) =~= Seq::empty());
    assert(args.deep_view() =~= start + mounts_args(binds(existing(all.take(0), exist@))));
    for i in 0..roots.len()
        invariant
            all == roots.deep_view(),
            roots@.len() == exist@.len(),
            binds == |paths: Seq<Seq<char>>|
                if write {
                    read_write(paths)
                } else {
                    read_only(paths)
                },
            args.deep_view() == start + mounts_args(
                binds(existing(all.take(i as int), exist@)),
            ),
    {
        let ghost before = existing(all.take(i as int), exist@);
        assert(all.take(i + 1).drop_last() =~= all.take(i as int));
        assert(all.take(i + 1).last() == roots@[i as int]@);
        if exist[i] {
            let ghost had = args.deep_view();
            let ghost p = roots@[i as int]@;
            if write {
                add_arg(args, "--bind");
            } else {
                add_arg(args, "--ro-bind");
            }
            add_arg(args, roots[i].as_str());
            add_arg(args, roots[i].as_str());
            proof {
                let m = if write {
                    Mount::Writable(p)
                } else {
                    Mount::ReadOnly(p)
                };
                let now = binds(before.push(p));
                assert(now =~= binds(before).push(m));
                assert(now.drop_last() =~= binds(before));
                assert(args.deep_view() =~= had + mount_args(m));
                assert(args.deep_view() =~= start + mounts_args(now));
            }
        }
    }
    assert(all.take(all.len() as int) =~= all);
}

impl Host {
    /// Whether it tells of every path of `r` whether it exists.
    pub open spec fn knows(&self, r: BubblewrapRunner) -> bool {
        &&& self.system_paths_exist@.len() == mounted_system().len()
        &&& self.config_files_exist@.len() == self.config_files@.len()
        &&& self.tool_roots_exist@.len() == r.tool_roots@.len()
        &&& self.read_roots_exist@.len() == r.extra_read_roots@.len()
        &&& self.write_roots_exist@.len() == r.allowed_write_roots@.len()
    }
}

impl BubblewrapRunner {
    /// A runner, unless `bwrap` is missing.
    pub fn new(
        bwrap_found: bool,
        allowed_write_roots: Vec<String>,
        extra_read_roots: Vec<String>,
        policy: SandboxPolicy,
        tool_roots: Vec<String>,
    ) -> (r: Result<BubblewrapRunner, SandboxError>)
        ensures
            r is Ok <==> bwrap_found,
            r matches Ok(runner) ==> runner == (BubblewrapRunner {
                allowed_write_roots,
                extra_read_roots,
                tool_roots,
                policy,
            }),
            r matches Err(e) ==> (e matches SandboxError::Backend(m) && m@ == BWRAP_MISSING@),
    {
        if !bwrap_found {
            return Err(SandboxError::Backend(BWRAP_MISSING.to_owned()));
        }
        Ok(BubblewrapRunner { allowed_write_roots, extra_read_roots, tool_roots, policy })
    }

    /// The arguments of `bwrap` for a command.
    pub fn build_args(&self, command: &str, cwd: &Option<String>, host: &Host) -> (r: Vec<String>)
        requires
            self.policy != SandboxPolicy::Off,
            host.knows(*self),
        ensures
            r.deep_view() == command_line(*self, *host, command@, cwd.deep_view()),
    {
        let mut args: Vec<String> = Vec::new();
        assert(args.deep_view() =~= Seq::empty());
        add_base(&mut args, host);
        self.add_paths(&mut args, host);
        add_own(&mut args);
        proof {
            let paths = read_only(shown(*self, *host)) + read_write(writable(*self, *host));
            lemma_mounts_args_add(base_mounts(*host), paths);
            lemma_mounts_args_add(base_mounts(*host) + paths, own_mounts());
            assert(base_mounts(*host) + paths + own_mounts() =~= mounts(*self, *host));
        }
        assert(args.deep_view() =~= mounts_args(mounts(*self, *host)));
        match self.policy {
            SandboxPolicy::Restricted => {
                add_arg(&mut args, "--unshare-net");
            },
            _ => {},
        }
        add_arg(&mut args, "--die-with-parent");
        if let Some(dir) = cwd {
            if is_absolute(dir.as_str()) {
                add_arg(&mut args, "--chdir");
                add_arg(&mut args, dir.as_str());
            }
        }
        add_arg(&mut args, "--");
        add_arg(&mut args, "bash");
        add_arg(&mut args, "-c");
        add_arg(&mut args, command);
        assert(args.deep_view() =~= command_line(*self, *host, command@, cwd.deep_view()));
        args
    }

    /// Appends the mounts of the paths that exist.
    fn add_paths(&self, args: &mut Vec<String>, host: &Host)
        requires
            host.knows(*self),
        ensures
            final(args).deep_view() == old(args).deep_view() + mounts_args(
                read_only(shown(*self, *host)) + read_write(writable(*self, *host)),
            ),
    {
        add_binds(args, false, &self.tool_roots, &host.tool_roots_exist);
        add_binds(args, false, &host.config_files, &host.config_files_exist);
        add_binds(args, false, &self.extra_read_roots, &host.read_roots_exist);
        add_binds(args, true, &self.allowed_write_roots, &host.write_roots_exist);
        proof {
            let a = read_only(existing(self.tool_roots.deep_view(), host.tool_roots_exist@));
            let b = read_only(existing(host.config_files.deep_view(), host.config_files_exist@));
            let c = read_only(existing(self.extra_read_roots.deep_view(), host.read_roots_exist@));
            let d = read_write(writable(*self, *host));
            assert(read_only(shown(*self, *host)) =~= a + b + c);
            lemma_mounts_args_add(a, b);
            lemma_mounts_args_add(a + b, c);
            lemma_mounts_args_add(a + b + c, d);
            assert(args.deep_view() =~= old(args).deep_view() + mounts_args(a + b + c + d));
        }
    }
}

/// Appends the mounts of the system and of the hidden home directory.
fn add_base(args: &mut Vec<String>, host: &Host)
    requires
        host.system_paths_exist@.len() == mounted_system().len(),
    ensures
        final(args).deep_view() == old(args).deep_view() + mounts_args(base_mounts(*host)),
{
    let ghost start = args.deep_view();
    let ghost system = read_only(system_shown(*host));
    let paths = system_mounts();
    assert(paths@.len() == paths.deep_view().len());
    add_binds(args, false, &paths, &host.system_paths_exist);
    if let Some(home) = &host.home {
        proof {
            lemma_mounts_args_push(system, Mount::Empty(home@));
        }
        add_arg(args, "--tmpfs");
        add_arg(args, home.as_str());
        assert(base_mounts(*host) =~= system.push(Mount::Empty(home@)));
        assert(args.deep_view() =~= start + mounts_args(base_mounts(*host)));
    } else {
        assert(base_mounts(*host) =~= system);
    }
}

/// Appends the mounts of the directories that every sandbox has of its own.
fn add_own(args: &mut Vec<String>)
    ensures
        final(args).deep_view() == old(args).deep_view() + mounts_args(own_mounts()),
{
    let ghost start = args.deep_view();
    let ghost one = Seq::<Mount>::empty().push(Mount::Empty("/tmp"@));
    proof {
        lemma_mounts_args_push(Seq::empty(), Mount::Empty("/tmp"@));
        lemma_mounts_args_push(one, Mount::Devices);
        lemma_mounts_args_push(one.push(Mount::Devices), Mount::Processes);
        assert(own_mounts() =~= one.push(Mount::Devices).push(Mount::Processes));
    }
    add_arg(args, "--tmpfs");
    add_arg(args, "/tmp");
    add_arg(args, "--dev");
    add_arg(args, "/dev");
    add_arg(args, "--proc");
    add_arg(args, "/proc");
    assert(args.deep_view() =~= start + mounts_args(own_mounts()));
}

// ---------------------------------------------------------------------------
// Laws
// ---------------------------------------------------------------------------

/// Where a mount is.
pub open spec fn target(m: Mount) -> Seq<char> {
    match m {
        Mount::ReadOnly(p) => p,
        Mount::Writable(p) => p,
        Mount::Empty(p) => p,
        Mount::Devices => "/dev"@,
        Mount::Processes => "/proc"@,
    }
}

/// The mount that decides what is seen at `path`: the last that covers it.
pub open spec fn seen_at(ms: Seq<Mount>, path: Seq<char>) -> Option<Mount>
    decreases ms.len(),
{
    if ms.len() == 0 {
        None
    } else if under(path, target(ms.last())) {
        Some(ms.last())
    } else {
        seen_at(ms.drop_last(), path)
    }
}

proof fn lemma_seen_at_add(a: Seq<Mount>, b: Seq<Mount>, path: Seq<char>)
    ensures
        seen_at(a + b, path) == (match seen_at(b, path) {
            Some(m) => Some(m),
            None => seen_at(a, path),
        }),
    decreases b.len(),
{
    if b.len() == 0 {
        assert(a + b =~= a);
    } else {
        assert((a + b).last() == b.last());
        assert((a + b).drop_last() =~= a + b.drop_last());
        lemma_seen_at_add(a, b.drop_last(), path);
    }
}

proof fn lemma_seen_at_binds(paths: Seq<Seq<char>>, path: Seq<char>)
    ensures
        under_any(path, paths) ==> seen_at(read_write(paths), path) matches Some(
            Mount::Writable(_),
        ),
        !under_any(path, paths) ==> seen_at(read_write(paths), path) is None && seen_at(
            read_only(paths),
            path,
        ) is None,
    decreases paths.len(),
{
    if paths.len() > 0 {
        let before = paths.drop_last();
        lemma_seen_at_binds(before, path);
        assert(read_write(paths).drop_last() =~= read_write(before));
        assert(read_only(paths).drop_last() =~= read_only(before));
        if under_any(path, before) {
            let i = choose|i: int| 0 <= i < before.len() && under(path, #[trigger] before[i]);
            assert(under(path, paths[i]));
        }
        if under_any(path, paths) && !under(path, paths.last()) {
            let i = choose|i: int| 0 <= i < paths.len() && under(path, #[trigger] paths[i]);
            assert(under(path, before[i]));
        }
        if !under_any(path, paths) {
            assert(!under(path, paths[paths.len() - 1]));
        }
    }
}

/// Whether a path is in one of the directories that every sandbox has of its own.
pub open spec fn in_own(path: Seq<char>) -> bool {
    under(path, "/tmp"@) || under(path, "/dev"@) || under(path, "/proc"@)
}

proof fn lemma_not_in_own(path: Seq<char>)
    requires
        !in_own(path),
    ensures
        seen_at(own_mounts(), path) is None,
{
    let own = own_mounts();
    assert(own.drop_last().drop_last().drop_last() =~= Seq::empty());
    assert(seen_at(own.drop_last().drop_last().drop_last(), path) is None);
    assert(own.drop_last().drop_last().last() == Mount::Empty("/tmp"@));
    assert(seen_at(own.drop_last().drop_last(), path) is None);
    assert(own.drop_last().last() == Mount::Devices);
    assert(seen_at(own.drop_last(), path) is None);
}

/// The project stays writable whatever is mounted read-only around it: outside the
/// sandbox's own directories, a path under a write root that exists is seen through
/// a writable mount.
pub proof fn law_write_roots_are_writable(r: BubblewrapRunner, host: Host, path: Seq<char>)
    requires
        under_any(path, writable(r, host)),
        !in_own(path),
    ensures
        seen_at(mounts(r, host), path) matches Some(Mount::Writable(_)),
{
    let below = base_mounts(host) + read_only(shown(r, host));
    lemma_not_in_own(path);
    lemma_seen_at_binds(writable(r, host), path);
    lemma_seen_at_add(below, read_write(writable(r, host)), path);
    lemma_seen_at_add(below + read_write(writable(r, host)), own_mounts(), path);
}

/// The home directory is hidden: a path in it that is under nothing that was
/// mounted back is seen in the empty directory.
pub proof fn law_home_is_hidden(r: BubblewrapRunner, host: Host, path: Seq<char>)
    requires
        host.home is Some,
        under(path, host.home->0@),
        !under_any(path, shown(r, host)),
        !under_any(path, writable(r, host)),
        !in_own(path),
    ensures
        seen_at(mounts(r, host), path) == Some(Mount::Empty(host.home->0@)),
{
    let below = base_mounts(host) + read_only(shown(r, host));
    lemma_not_in_own(path);
    lemma_seen_at_binds(writable(r, host), path);
    lemma_seen_at_binds(shown(r, host), path);
    lemma_seen_at_add(base_mounts(host), read_only(shown(r, host)), path);
    lemma_seen_at_add(below, read_write(writable(r, host)), path);
    lemma_seen_at_add(below + read_write(writable(r, host)), own_mounts(), path);
    assert(base_mounts(host).last() == Mount::Empty(host.home->0@));
}

/// Nothing but the write roots and the sandbox's own directories can be written: a
/// path under none of them is seen read-only or in the empty home directory, or
/// not at all.
pub proof fn law_the_rest_is_read_only(r: BubblewrapRunner, host: Host, path: Seq<char>)
    requires
        !under_any(path, writable(r, host)),
        !in_own(path),
    ensures
        match seen_at(mounts(r, host), path) {
            Some(Mount::ReadOnly(_)) => true,
            Some(Mount::Empty(home)) => host.home is Some && home == host.home->0@,
            Some(_) => false,
            None => true,
        },
{
    let below = base_mounts(host) + read_only(shown(r, host));
    lemma_not_in_own(path);
    lemma_seen_at_binds(writable(r, host), path);
    lemma_seen_at_add(base_mounts(host), read_only(shown(r, host)), path);
    lemma_seen_at_add(below, read_write(writable(r, host)), path);
    lemma_seen_at_add(below + read_write(writable(r, host)), own_mounts(), path);
    lemma_read_only_is(shown(r, host), path);
    lemma_read_only_is(system_shown(host), path);
    let system = read_only(system_shown(host));
    match host.home {
        Some(home) => {
            assert(base_mounts(host).last() == Mount::Empty(home@));
            assert(base_mounts(host).drop_last() =~= system);
        },
        None => {
            assert(base_mounts(host) =~= system);
        },
    }
}

proof fn lemma_existing_are(roots: Seq<Seq<char>>, exist: Seq<bool>, path: Seq<char>)
    requires
        existing(roots, exist).contains(path),
    ensures
        roots.contains(path),
    decreases roots.len(),
{
    if roots.len() > 0 {
        let before = existing(roots.drop_last(), exist);
        let i = choose|i: int|
            0 <= i < existing(roots, exist).len() && existing(roots, exist)[i] == path;
        if i < before.len() {
            assert(before[i] == path);
            lemma_existing_are(roots.drop_last(), exist, path);
            let k = choose|k: int|
                0 <= k < roots.drop_last().len() && roots.drop_last()[k] == path;
            assert(roots[k] == path);
        } else {
            assert(roots[roots.len() - 1] == path);
        }
    }
}

/// Nothing of the host is mounted but the system paths, the tool roots, the single
/// files of the user that hold no secrets, the extra read roots and the write roots;
/// only these last are mounted writable. The host as a whole is mounted only where
/// one of the roots given is the root directory.
pub proof fn law_only_known_paths_are_mounted(r: BubblewrapRunner, host: Host, i: int)
    requires
        0 <= i < mounts(r, host).len(),
    ensures
        match mounts(r, host)[i] {
            Mount::ReadOnly(p) => {
                let given = r.tool_roots.deep_view().contains(p)
                    || host.config_files.deep_view().contains(p)
                    || r.extra_read_roots.deep_view().contains(p);
                &&& mounted_system().contains(p) || given
                &&& p == "/"@ ==> given
            },
            Mount::Writable(p) => r.allowed_write_roots.deep_view().contains(p),
            _ => true,
        },
{
    let base = base_mounts(host);
    let tools = existing(r.tool_roots.deep_view(), host.tool_roots_exist@);
    let files = existing(host.config_files.deep_view(), host.config_files_exist@);
    let reads = existing(r.extra_read_roots.deep_view(), host.read_roots_exist@);
    let sys = system_shown(host);
    match mounts(r, host)[i] {
        Mount::ReadOnly(p) => {
            if i < base.len() {
                assert(sys[i] == p);
                lemma_existing_are(mounted_system(), host.system_paths_exist@, p);
                lemma_root_is_no_system_path();
            } else {
                let k = i - base.len();
                assert(shown(r, host)[k] == p);
                if k < tools.len() {
                    assert(tools[k] == p);
                    lemma_existing_are(r.tool_roots.deep_view(), host.tool_roots_exist@, p);
                } else if k < tools.len() + files.len() {
                    assert(files[k - tools.len()] == p);
                    lemma_existing_are(
                        host.config_files.deep_view(),
                        host.config_files_exist@,
                        p,
                    );
                } else {
                    assert(reads[k - tools.len() - files.len()] == p);
                    lemma_existing_are(r.extra_read_roots.deep_view(), host.read_roots_exist@, p);
                }
            }
        },
        Mount::Writable(p) => {
            let k = i - base.len() - shown(r, host).len();
            assert(writable(r, host)[k] == p);
            lemma_existing_are(r.allowed_write_roots.deep_view(), host.write_roots_exist@, p);
        },
        _ => {},
    }
}

proof fn lemma_root_is_no_system_path()
    ensures
        !mounted_system().contains("/"@),
{
    reveal_strlit("/");
    reveal_strlit("/usr");
    reveal_strlit("/lib");
    reveal_strlit("/lib64");
    reveal_strlit("/bin");
    reveal_strlit("/sbin");
    reveal_strlit("/etc");
    reveal_strlit("/tmp");
    reveal_strlit("/opt");
    reveal_strlit("/nix");
    reveal_strlit("/var");
    reveal_strlit("/run/systemd/resolve");
    assert forall|i: int| 0 <= i < mounted_system().len() implies mounted_system()[i] != "/"@ by {
        assert(mounted_system()[i].len() > 1);
    }
}

/// A path under no mount is not there.
pub proof fn law_the_rest_is_not_there(r: BubblewrapRunner, host: Host, path: Seq<char>)
    requires
        !under_any(path, system_shown(host)),
        host.home is Some ==> !under(path, host.home->0@),
        !under_any(path, shown(r, host)),
        !under_any(path, writable(r, host)),
        !in_own(path),
    ensures
        seen_at(mounts(r, host), path) is None,
{
    let below = base_mounts(host) + read_only(shown(r, host));
    let system = read_only(system_shown(host));
    lemma_not_in_own(path);
    lemma_seen_at_binds(writable(r, host), path);
    lemma_seen_at_binds(shown(r, host), path);
    lemma_seen_at_binds(system_shown(host), path);
    lemma_seen_at_add(base_mounts(host), read_only(shown(r, host)), path);
    lemma_seen_at_add(below, read_write(writable(r, host)), path);
    lemma_seen_at_add(below + read_write(writable(r, host)), own_mounts(), path);
    match host.home {
        Some(home) => {
            assert(base_mounts(host).last() == Mount::Empty(home@));
            assert(base_mounts(host).drop_last() =~= system);
        },
        None => {
            assert(base_mounts(host) =~= system);
        },
    }
}

proof fn lemma_read_only_is(paths: Seq<Seq<char>>, path: Seq<char>)
    ensures
        seen_at(read_only(paths), path) matches Some(m) ==> m is ReadOnly,
    decreases paths.len(),
{
    if paths.len() > 0 {
        assert(read_only(paths).drop_last() =~= read_only(paths.drop_last()));
        lemma_read_only_is(paths.drop_last(), path);
    }
}

/// The command comes last, behind `--`, so that nothing in it is taken for an
/// option, and the network is cut off exactly under the restricted policy.
pub proof fn law_command_comes_last(
    r: BubblewrapRunner,
    host: Host,
    command: Seq<char>,
    cwd: Option<Seq<char>>,
)
    ensures
        ({
            let line = command_line(r, host, command, cwd);
            let n = line.len() as int;
            let m = mounts_args(mounts(r, host)).len() as int;
            &&& n >= 4
            &&& line.skip(n - 4) == seq!["--"@, "bash"@, "-c"@, command]
            &&& line.take(m) == mounts_args(mounts(r, host))
            &&& line[m] == (if r.policy == SandboxPolicy::Restricted {
                "--unshare-net"@
            } else {
                "--die-with-parent"@
            })
        }),
{
    let line = command_line(r, host, command, cwd);
    let n = line.len() as int;
    let m = mounts_args(mounts(r, host)).len() as int;
    assert(line.skip(n - 4) =~= seq!["--"@, "bash"@, "-c"@, command]);
    assert(line.take(m) =~= mounts_args(mounts(r, host)));
}

proof fn lemma_existing_has(roots: Seq<Seq<char>>, exist: Seq<bool>, i: int)
    requires
        0 <= i < roots.len(),
        exist[i],
    ensures
        existing(roots, exist).contains(roots[i]),
    decreases roots.len(),
{
    let before = existing(roots.drop_last(), exist);
    let now = existing(roots, exist);
    if i == roots.len() - 1 {
        assert(now[before.len() as int] == roots[i]);
    } else {
        lemma_existing_has(roots.drop_last(), exist, i);
        let k = choose|k: int| 0 <= k < before.len() && before[k] == roots.drop_last()[i];
        assert(now[k] == roots[i]);
    }
}

proof fn lemma_existing_exist(roots: Seq<Seq<char>>, exist: Seq<bool>, path: Seq<char>) -> (i: int)
    requires
        existing(roots, exist).contains(path),
    ensures
        0 <= i < roots.len() && exist[i] && roots[i] == path,
    decreases roots.len(),
{
    let before = existing(roots.drop_last(), exist);
    let now = existing(roots, exist);
    let k = choose|k: int| 0 <= k < now.len() && now[k] == path;
    if roots.len() > 0 && k < before.len() {
        assert(before[k] == path);
        lemma_existing_exist(roots.drop_last(), exist, path)
    } else {
        roots.len() - 1
    }
}

proof fn lemma_mounts_have(r: BubblewrapRunner, host: Host, path: Seq<char>)
    ensures
        system_shown(host).contains(path) || shown(r, host).contains(path) ==> mounts(
            r,
            host,
        ).contains(Mount::ReadOnly(path)),
        writable(r, host).contains(path) ==> mounts(r, host).contains(Mount::Writable(path)),
{
    let all = mounts(r, host);
    let base = base_mounts(host).len() as int;
    if system_shown(host).contains(path) {
        let k = choose|k: int| 0 <= k < system_shown(host).len() && system_shown(host)[k] == path;
        assert(all[k] == Mount::ReadOnly(path));
    }
    if shown(r, host).contains(path) {
        let k = choose|k: int| 0 <= k < shown(r, host).len() && shown(r, host)[k] == path;
        assert(all[base + k] == Mount::ReadOnly(path));
    }
    if writable(r, host).contains(path) {
        let k = choose|k: int| 0 <= k < writable(r, host).len() && writable(r, host)[k] == path;
        assert(all[base + shown(r, host).len() + k] == Mount::Writable(path));
    }
}

proof fn lemma_shown(r: BubblewrapRunner, host: Host, path: Seq<char>)
    ensures
        shown(r, host).contains(path) <==> {
            ||| existing(r.tool_roots.deep_view(), host.tool_roots_exist@).contains(path)
            ||| existing(host.config_files.deep_view(), host.config_files_exist@).contains(path)
            ||| existing(r.extra_read_roots.deep_view(), host.read_roots_exist@).contains(path)
        },
{
    let all = shown(r, host);
    let a = existing(r.tool_roots.deep_view(), host.tool_roots_exist@);
    let b = existing(host.config_files.deep_view(), host.config_files_exist@);
    let c = existing(r.extra_read_roots.deep_view(), host.read_roots_exist@);
    if a.contains(path) {
        let k = choose|k: int| 0 <= k < a.len() && a[k] == path;
        assert(all[k] == path);
    }
    if b.contains(path) {
        let k = choose|k: int| 0 <= k < b.len() && b[k] == path;
        assert(all[a.len() + k] == path);
    }
    if c.contains(path) {
        let k = choose|k: int| 0 <= k < c.len() && c[k] == path;
        assert(all[a.len() + b.len() + k] == path);
    }
    if all.contains(path) {
        let k = choose|k: int| 0 <= k < all.len() && all[k] == path;
        if k < a.len() {
            assert(a[k] == path);
        } else if k < a.len() + b.len() {
            assert(b[k - a.len()] == path);
        } else {
            assert(c[k - a.len() - b.len()] == path);
        }
    }
}

/// Everything that is given and exists is mounted: a tool root, a single file of the
/// user, an extra read root and a system path read-only, a write root writable.
pub proof fn law_what_exists_is_mounted(r: BubblewrapRunner, host: Host, i: int)
    ensures
        0 <= i < r.tool_roots@.len() && host.tool_roots_exist@[i] ==> mounts(r, host).contains(
            Mount::ReadOnly(r.tool_roots@[i]@),
        ),
        0 <= i < host.config_files@.len() && host.config_files_exist@[i] ==> mounts(
            r,
            host,
        ).contains(Mount::ReadOnly(host.config_files@[i]@)),
        0 <= i < r.extra_read_roots@.len() && host.read_roots_exist@[i] ==> mounts(
            r,
            host,
        ).contains(Mount::ReadOnly(r.extra_read_roots@[i]@)),
        0 <= i < r.allowed_write_roots@.len() && host.write_roots_exist@[i] ==> mounts(
            r,
            host,
        ).contains(Mount::Writable(r.allowed_write_roots@[i]@)),
        0 <= i < mounted_system().len() && host.system_paths_exist@[i] ==> mounts(
            r,
            host,
        ).contains(Mount::ReadOnly(mounted_system()[i])),
{
    if 0 <= i < r.tool_roots@.len() && host.tool_roots_exist@[i] {
        lemma_existing_has(r.tool_roots.deep_view(), host.tool_roots_exist@, i);
        lemma_shown(r, host, r.tool_roots@[i]@);
        lemma_mounts_have(r, host, r.tool_roots@[i]@);
    }
    if 0 <= i < host.config_files@.len() && host.config_files_exist@[i] {
        lemma_existing_has(host.config_files.deep_view(), host.config_files_exist@, i);
        lemma_shown(r, host, host.config_files@[i]@);
        lemma_mounts_have(r, host, host.config_files@[i]@);
    }
    if 0 <= i < r.extra_read_roots@.len() && host.read_roots_exist@[i] {
        lemma_existing_has(r.extra_read_roots.deep_view(), host.read_roots_exist@, i);
        lemma_shown(r, host, r.extra_read_roots@[i]@);
        lemma_mounts_have(r, host, r.extra_read_roots@[i]@);
    }
    if 0 <= i < r.allowed_write_roots@.len() && host.write_roots_exist@[i] {
        lemma_existing_has(r.allowed_write_roots.deep_view(), host.write_roots_exist@, i);
        lemma_mounts_have(r, host, r.allowed_write_roots@[i]@);
    }
    if 0 <= i < mounted_system().len() && host.system_paths_exist@[i] {
        lemma_existing_has(mounted_system(), host.system_paths_exist@, i);
        lemma_mounts_have(r, host, mounted_system()[i]);
    }
}

/// Whether `roots[i]` is `path` for some `i` for which `exist[i]` holds.
pub open spec fn one_exists(roots: Seq<Seq<char>>, exist: Seq<bool>, path: Seq<char>) -> bool {
    exists|i: int| 0 <= i < roots.len() && exist[i] && #[trigger] roots[i] == path
}

/// Nothing is mounted from the host that is not there.
pub proof fn law_only_what_exists_is_mounted(r: BubblewrapRunner, host: Host, path: Seq<char>)
    ensures
        mounts(r, host).contains(Mount::Writable(path)) ==> one_exists(
            r.allowed_write_roots.deep_view(),
            host.write_roots_exist@,
            path,
        ),
        mounts(r, host).contains(Mount::ReadOnly(path)) ==> {
            ||| one_exists(mounted_system(), host.system_paths_exist@, path)
            ||| one_exists(r.tool_roots.deep_view(), host.tool_roots_exist@, path)
            ||| one_exists(host.config_files.deep_view(), host.config_files_exist@, path)
            ||| one_exists(r.extra_read_roots.deep_view(), host.read_roots_exist@, path)
        },
        mounts(r, host).contains(Mount::Empty(path)) ==> path == "/tmp"@ || (host.home is Some
            && path == host.home->0@),
{
    let all = mounts(r, host);
    let base = base_mounts(host).len() as int;
    let read = shown(r, host).len() as int;
    if all.contains(Mount::Writable(path)) {
        let k = choose|k: int| 0 <= k < all.len() && all[k] == Mount::Writable(path);
        assert(writable(r, host)[k - base - read] == path);
        let _i = lemma_existing_exist(
            r.allowed_write_roots.deep_view(),
            host.write_roots_exist@,
            path,
        );
    }
    if all.contains(Mount::ReadOnly(path)) {
        let k = choose|k: int| 0 <= k < all.len() && all[k] == Mount::ReadOnly(path);
        if k < base {
            assert(system_shown(host)[k] == path);
            let _i = lemma_existing_exist(mounted_system(), host.system_paths_exist@, path);
        } else {
            assert(shown(r, host)[k - base] == path);
            lemma_shown(r, host, path);
            if existing(r.tool_roots.deep_view(), host.tool_roots_exist@).contains(path) {
                let _i = lemma_existing_exist(
                    r.tool_roots.deep_view(),
                    host.tool_roots_exist@,
                    path,
                );
            } else if existing(host.config_files.deep_view(), host.config_files_exist@).contains(
                path,
            ) {
                let _i = lemma_existing_exist(
                    host.config_files.deep_view(),
                    host.config_files_exist@,
                    path,
                );
            } else {
                let _i = lemma_existing_exist(
                    r.extra_read_roots.deep_view(),
                    host.read_roots_exist@,
                    path,
                );
            }
        }
    }
    if all.contains(Mount::Empty(path)) {
        let k = choose|k: int| 0 <= k < all.len() && all[k] == Mount::Empty(path);
        assert(system_shown(host).len() <= k < base || base + read + writable(r, host).len() <= k);
    }
}

/// The project is what can be written: where a write root exists, each path under it
/// outside the sandbox's own directories is seen through a writable mount.
pub proof fn law_each_write_root_is_writable(
    r: BubblewrapRunner,
    host: Host,
    i: int,
    path: Seq<char>,
)
    requires
        0 <= i < r.allowed_write_roots@.len(),
        host.write_roots_exist@[i],
        under(path, r.allowed_write_roots@[i]@),
        !under(path, "/tmp"@),
        !under(path, "/dev"@),
        !under(path, "/proc"@),
    ensures
        seen_at(mounts(r, host), path) matches Some(Mount::Writable(_)),
{
    lemma_existing_has(r.allowed_write_roots.deep_view(), host.write_roots_exist@, i);
    let w = writable(r, host);
    let k = choose|k: int| 0 <= k < w.len() && w[k] == r.allowed_write_roots.deep_view()[i];
    assert(under(path, w[k]));
    law_write_roots_are_writable(r, host, path);
}

/// Nothing of the home directory is seen that is not given: a path in it under none
/// of the tool roots, files, read roots and write roots is in an empty directory.
pub proof fn law_nothing_else_of_the_home_is_seen(
    r: BubblewrapRunner,
    host: Host,
    path: Seq<char>,
)
    requires
        host.home is Some,
        under(path, host.home->0@),
        forall|k: int|
            0 <= k < r.tool_roots@.len() ==> !under(path, #[trigger] r.tool_roots.deep_view()[k]),
        forall|k: int|
            0 <= k < host.config_files@.len() ==> !under(
                path,
                #[trigger] host.config_files.deep_view()[k],
            ),
        forall|k: int|
            0 <= k < r.extra_read_roots@.len() ==> !under(
                path,
                #[trigger] r.extra_read_roots.deep_view()[k],
            ),
        forall|k: int|
            0 <= k < r.allowed_write_roots@.len() ==> !under(
                path,
                #[trigger] r.allowed_write_roots.deep_view()[k],
            ),
    ensures
        seen_at(mounts(r, host), path) matches Some(Mount::Empty(p)) && (p == host.home->0@ || p
            == "/tmp"@) || under(path, "/dev"@) || under(path, "/proc"@),
{
    if under_any(path, shown(r, host)) {
        let s = shown(r, host);
        let k = choose|k: int| 0 <= k < s.len() && under(path, #[trigger] s[k]);
        assert(s.contains(s[k]));
        lemma_shown(r, host, s[k]);
        if existing(r.tool_roots.deep_view(), host.tool_roots_exist@).contains(s[k]) {
            let _i = lemma_existing_exist(r.tool_roots.deep_view(), host.tool_roots_exist@, s[k]);
        } else if existing(host.config_files.deep_view(), host.config_files_exist@).contains(s[k]) {
            let _i = lemma_existing_exist(
                host.config_files.deep_view(),
                host.config_files_exist@,
                s[k],
            );
        } else {
            let _i = lemma_existing_exist(
                r.extra_read_roots.deep_view(),
                host.read_roots_exist@,
                s[k],
            );
        }
    }
    if under_any(path, writable(r, host)) {
        let w = writable(r, host);
        let k = choose|k: int| 0 <= k < w.len() && under(path, #[trigger] w[k]);
        assert(w.contains(w[k]));
        let _i = lemma_existing_exist(
            r.allowed_write_roots.deep_view(),
            host.write_roots_exist@,
            w[k],
        );
    }
    if under(path, "/tmp"@) && !under(path, "/dev"@) && !under(path, "/proc"@) {
        let own = own_mounts();
        let below = base_mounts(host) + read_only(shown(r, host)) + read_write(writable(r, host));
        lemma_seen_at_add(below, own, path);
        assert(own.drop_last().drop_last().last() == Mount::Empty("/tmp"@));
        assert(seen_at(own.drop_last().drop_last(), path) == Some(Mount::Empty("/tmp"@)));
        assert(own.drop_last().last() == Mount::Devices);
        assert(seen_at(own.drop_last(), path) == Some(Mount::Empty("/tmp"@)));
    } else if !in_own(path) {
        law_home_is_hidden(r, host, path);
    }
}

/// Every sandbox has an empty `/tmp`, devices and processes of its own, behind which
/// nothing of the host is seen.
pub proof fn law_own_directories(r: BubblewrapRunner, host: Host, path: Seq<char>)
    ensures
        under(path, "/proc"@) ==> seen_at(mounts(r, host), path) == Some(Mount::Processes),
        under(path, "/dev"@) && !under(path, "/proc"@) ==> seen_at(mounts(r, host), path) == Some(
            Mount::Devices,
        ),
        under(path, "/tmp"@) && !under(path, "/dev"@) && !under(path, "/proc"@) ==> seen_at(
            mounts(r, host),
            path,
        ) == Some(Mount::Empty("/tmp"@)),
{
    let own = own_mounts();
    let below = base_mounts(host) + read_only(shown(r, host)) + read_write(writable(r, host));
    lemma_seen_at_add(below, own, path);
    assert(own.drop_last().drop_last().last() == Mount::Empty("/tmp"@));
    assert(own.drop_last().last() == Mount::Devices);
    if under(path, "/tmp"@) {
        assert(seen_at(own.drop_last().drop_last(), path) == Some(Mount::Empty("/tmp"@)));
    }
    if under(path, "/dev"@) {
        assert(seen_at(own.drop_last(), path) == Some(Mount::Devices));
    } else {
        assert(seen_at(own.drop_last(), path) == seen_at(own.drop_last().drop_last(), path));
    }
}

/// The system paths that are mounted: the usual directories, and the configuration
/// of the resolver.
pub proof fn law_system_paths(path: Seq<char>)
    ensures
        mounted_system().contains(path) <==> {
            ||| path == "/usr"@
            ||| path == "/lib"@
            ||| path == "/lib64"@
            ||| path == "/bin"@
            ||| path == "/sbin"@
            ||| path == "/etc"@
            ||| path == "/tmp"@
            ||| path == "/opt"@
            ||| path == "/nix"@
            ||| path == "/var"@
            ||| path == "/run/systemd/resolve"@
        },
{
    let all = mounted_system();
    assert(all[0] == "/usr"@ && all[1] == "/lib"@ && all[2] == "/lib64"@ && all[3] == "/bin"@);
    assert(all[4] == "/sbin"@ && all[5] == "/etc"@ && all[6] == "/tmp"@ && all[7] == "/opt"@);
    assert(all[8] == "/nix"@ && all[9] == "/var"@ && all[10] == "/run/systemd/resolve"@);
    assert(all.len() == 11);
}

/// How a mount is told to `bwrap`, wherever it stands among the others: a path as on
/// the host by an option, where it is there and where it is to be seen.
pub proof fn law_mounts_are_told(before: Seq<Mount>, m: Mount, behind: Seq<Mount>)
    ensures
        ({
            let line = mounts_args(before + seq![m] + behind);
            let at = mounts_args(before).len() as int;
            let told = line.skip(at).take(line.len() - at - mounts_args(behind).len());
            &&& line.take(at) == mounts_args(before)
            &&& line.skip(line.len() - mounts_args(behind).len()) == mounts_args(behind)
            &&& m is ReadOnly ==> told == seq!["--ro-bind"@, m->ReadOnly_0, m->ReadOnly_0]
            &&& m is Writable ==> told == seq!["--bind"@, m->Writable_0, m->Writable_0]
            &&& m is Empty ==> told == seq!["--tmpfs"@, m->Empty_0]
            &&& m is Devices ==> told == seq!["--dev"@, "/dev"@]
            &&& m is Processes ==> told == seq!["--proc"@, "/proc"@]
        }),
        mounts_args(Seq::<Mount>::empty()) == Seq::<Seq<char>>::empty(),
{
    lemma_mounts_args_add(before + seq![m], behind);
    lemma_mounts_args_add(before, seq![m]);
    lemma_mounts_args_push(Seq::empty(), m);
    assert(seq![m] =~= Seq::<Mount>::empty().push(m));
    assert(mounts_args(seq![m]) =~= mount_args(m));
    let line = mounts_args(before + seq![m] + behind);
    let at = mounts_args(before).len() as int;
    assert(line =~= mounts_args(before) + mount_args(m) + mounts_args(behind));
    assert(line.skip(at).take(line.len() - at - mounts_args(behind).len()) =~= mount_args(m));
    assert(line.take(at) =~= mounts_args(before));
    assert(line.skip(line.len() - mounts_args(behind).len()) =~= mounts_args(behind));
}

/// The options behind the mounts: the network is cut off exactly under the restricted
/// policy, the sandbox ends with its parent, and the command runs in the directory
/// given where that starts at the root.
pub proof fn law_options(
    r: BubblewrapRunner,
    host: Host,
    command: Seq<char>,
    dir: Seq<char>,
)
    ensures
        ({
            let line = command_line(r, host, command, Some(dir));
            let options = line.skip(mounts_args(mounts(r, host)).len() as int);
            let cut = r.policy == SandboxPolicy::Restricted;
            let set = dir.len() > 0 && dir[0] == '/';
            &&& cut && set ==> options == seq![
                "--unshare-net"@,
                "--die-with-parent"@,
                "--chdir"@,
                dir,
                "--"@,
                "bash"@,
                "-c"@,
                command,
            ]
            &&& !cut && set ==> options == seq![
                "--die-with-parent"@,
                "--chdir"@,
                dir,
                "--"@,
                "bash"@,
                "-c"@,
                command,
            ]
            &&& !set ==> line == command_line(r, host, command, None)
        }),
        ({
            let line = command_line(r, host, command, None);
            let options = line.skip(mounts_args(mounts(r, host)).len() as int);
            if r.policy == SandboxPolicy::Restricted {
                options == seq![
                    "--unshare-net"@,
                    "--die-with-parent"@,
                    "--"@,
                    "bash"@,
                    "-c"@,
                    command,
                ]
            } else {
                options == seq!["--die-with-parent"@, "--"@, "bash"@, "-c"@, command]
            }
        }),
{
}

/// What has to be known of the host: of each path, whether it exists.
pub proof fn law_what_has_to_be_known(r: BubblewrapRunner, host: Host)
    ensures
        host.knows(r) <==> {
            &&& host.system_paths_exist@.len() == 11
            &&& host.config_files_exist@.len() == host.config_files@.len()
            &&& host.tool_roots_exist@.len() == r.tool_roots@.len()
            &&& host.read_roots_exist@.len() == r.extra_read_roots@.len()
            &&& host.write_roots_exist@.len() == r.allowed_write_roots@.len()
        },
{
}

/// What is said where `bwrap` is missing: how to install it, for each kind of host,
/// and how to go on without it.
pub proof fn law_what_is_said_without_bwrap()
    ensures
        BWRAP_MISSING@
            == "bwrap not found on $PATH. Install it with:\n\nDebian/Ubuntu: apt install bubblewrap\nFedora/RHEL:   dnf install bubblewrap\nArch:          pacman -S bubblewrap\n\nOr run without --sandbox to disable sandboxing."@,
{
}

} // verus!
