//! Which paths a restricted file system lets through.
//!
//! A path is looked up on the host first, so that links and `..` are resolved;
//! what it resolves to has to lie under one of the roots.

use vstd::prelude::*;
use vstd::string::StringExecFns;

use crate::lists::{lemma_picks_last, picks};
use crate::paths::{
    climb, climbed, join_path, joined_path, law_under_is_a_partial_order, starts_with_any, under,
    under_any,
};
use crate::sandbox::SandboxError;
use crate::text::clone_texts;

verus! {

// ---------------------------------------------------------------------------
// Roots
// ---------------------------------------------------------------------------

/// The system paths that hold no secrets of the user and that tools need.
pub open spec fn system_paths(macos: bool) -> Seq<Seq<char>> {
    let everywhere = seq![
        "/usr"@,
        "/lib"@,
        "/lib64"@,
        "/bin"@,
        "/sbin"@,
        "/etc"@,
        "/tmp"@,
        "/opt"@,
        "/nix"@,
        "/var"@,
    ];
    if macos {
        everywhere + seq![
            "/System"@,
            "/Library"@,
            "/private"@,
            "/Applications"@,
            "/Developer"@,
        ]
    } else {
        everywhere
    }
}

/// The system paths to look up.
pub fn system_read_paths(macos: bool) -> (r: Vec<String>)
    ensures
        r.deep_view() == system_paths(macos),
{
    let mut out: Vec<String> = Vec::new();
    out.push("/usr".to_owned());
    out.push("/lib".to_owned());
    out.push("/lib64".to_owned());
    out.push("/bin".to_owned());
    out.push("/sbin".to_owned());
    out.push("/etc".to_owned());
    out.push("/tmp".to_owned());
    out.push("/opt".to_owned());
    out.push("/nix".to_owned());
    out.push("/var".to_owned());
    if macos {
        out.push("/System".to_owned());
        out.push("/Library".to_owned());
        out.push("/private".to_owned());
        out.push("/Applications".to_owned());
        out.push("/Developer".to_owned());
    }
    assert(out.deep_view() =~= system_paths(macos));
    out
}

/// A write root as it was given, and what it resolves to, where it does.
#[derive(Debug)]
pub struct RootProbe {
    pub path: String,
    pub canonical: Option<String>,
}

/// What counts as the root: what it resolves to, or else the path as given.
pub open spec fn root_of(probe: RootProbe) -> Seq<char> {
    match probe.canonical {
        Some(c) => c@,
        None => probe.path@,
    }
}

/// What counts as the roots.
pub open spec fn roots_of(probes: Seq<RootProbe>) -> Seq<Seq<char>> {
    probes.map_values(|p: RootProbe| root_of(p))
}

/// The texts among `list`.
pub open spec fn present(list: Seq<Option<Seq<char>>>) -> Seq<Seq<char>>
    decreases list.len(),
{
    if list.len() == 0 {
        Seq::empty()
    } else {
        match list.last() {
            Some(t) => present(list.drop_last()).push(t),
            None => present(list.drop_last()),
        }
    }
}

/// The roots to look up before a restricted file system is made.
#[derive(Debug)]
pub struct RootPlan {
    pub write_roots: Vec<String>,
    pub extra_read_roots: Vec<String>,
}

/// A file system that reads and writes only under certain roots.
#[derive(Debug)]
pub struct RestrictedFs {
    pub canonical_read_roots: Vec<String>,
    pub canonical_write_roots: Vec<String>,
}

proof fn lemma_write_roots_are_readable(
    fs: RestrictedFs,
    write_roots: Seq<RootProbe>,
    before: Seq<Seq<char>>,
    after: Seq<Seq<char>>,
)
    requires
        fs.canonical_write_roots.deep_view() == roots_of(write_roots),
        fs.canonical_read_roots.deep_view() == before + roots_of(write_roots) + after,
    ensures
        fs.writes_are_readable(),
{
    let reads = fs.canonical_read_roots.deep_view();
    assert forall|i: int| 0 <= i < fs.canonical_write_roots@.len() implies reads.contains(
        #[trigger] fs.canonical_write_roots.deep_view()[i],
    ) by {
        assert(reads[before.len() + i] == roots_of(write_roots)[i]);
    }
}

/// Appends the texts among `list`.
fn add_present(out: &mut Vec<String>, list: &Vec<Option<String>>)
    ensures
        final(out).deep_view() == old(out).deep_view() + present(list.deep_view()),
{
    let ghost start = out.deep_view();
    let ghost all = list.deep_view();
    assert(out.deep_view() =~= start + present(all.take(0)));
    for i in 0..list.len()
        invariant
            all == list.deep_view(),
            out.deep_view() == start + present(all.take(i as int)),
    {
        let ghost before = out.deep_view();
        assert(all.take(i + 1).drop_last() =~= all.take(i as int));
        assert(all.take(i + 1).last() == list@[i as int].deep_view());
        if let Some(t) = &list[i] {
            out.push(t.clone());
            assert(out.deep_view() =~= before.push(t@));
            assert(out.deep_view() =~= start + present(all.take(i + 1)));
        }
    }
    assert(all.take(all.len() as int) =~= all);
}

impl RestrictedFs {
    /// Writes under `write_roots`; reads there, under the system paths, under the
    /// extra read roots and of single configuration files. Of those last three
    /// each stands as what it resolves to, and counts only where it does.
    pub fn new(
        write_roots: Vec<RootProbe>,
        system: &Vec<Option<String>>,
        extra_read_roots: &Vec<Option<String>>,
        config_files: &Vec<Option<String>>,
    ) -> (r: RestrictedFs)
        ensures
            r.canonical_write_roots.deep_view() == roots_of(write_roots@),
            r.canonical_read_roots.deep_view() == present(system.deep_view()) + roots_of(
                write_roots@,
            ) + present(extra_read_roots.deep_view()) + present(config_files.deep_view()),
            r.writes_are_readable(),
    {
        let ghost roots = roots_of(write_roots@);
        let mut canonical_write_roots: Vec<String> = Vec::new();
        let ghost list = write_roots@;
        for probe in it: write_roots
            invariant
                it.seq() == list,
                roots == roots_of(list),
                canonical_write_roots@.len() == it.index(),
                forall|k: int|
                    0 <= k < it.index() ==> (#[trigger] canonical_write_roots@[k])@ == roots[k],
        {
            assert(list[it.index()] == probe);
            let root = match probe.canonical {
                Some(c) => c,
                None => probe.path,
            };
            canonical_write_roots.push(root);
        }
        assert(canonical_write_roots.deep_view() =~= roots);
        let mut read_roots: Vec<String> = Vec::new();
        add_present(&mut read_roots, system);
        let mut copy = clone_texts(&canonical_write_roots);
        let ghost before = read_roots.deep_view();
        let ghost copied = copy.deep_view();
        read_roots.append(&mut copy);
        assert(read_roots.deep_view() =~= before + copied);
        add_present(&mut read_roots, extra_read_roots);
        add_present(&mut read_roots, config_files);
        assert(read_roots.deep_view() =~= present(system.deep_view()) + roots + present(
            extra_read_roots.deep_view(),
        ) + present(config_files.deep_view()));
        let fs = RestrictedFs { canonical_read_roots: read_roots, canonical_write_roots };
        proof {
            let after = present(extra_read_roots.deep_view()) + present(config_files.deep_view());
            assert(fs.canonical_read_roots.deep_view() =~= present(system.deep_view()) + roots
                + after);
            lemma_write_roots_are_readable(fs, list, present(system.deep_view()), after);
        }
        fs
    }

    /// The roots for writes to `project_root` alone.
    pub fn with_local_fs(project_root: String, tool_roots: Vec<String>) -> (r: RootPlan)
        ensures
            r.write_roots.deep_view() == seq![project_root@],
            r.extra_read_roots.deep_view() == tool_roots.deep_view(),
    {
        let plan = RestrictedFs::with_local_fs_and_reads(project_root, Vec::new(), tool_roots);
        assert(plan.extra_read_roots.deep_view() =~= tool_roots.deep_view());
        plan
    }

    /// The roots for writes to `project_root`, and reads of `extra_read_roots`
    /// besides.
    pub fn with_local_fs_and_reads(
        project_root: String,
        extra_read_roots: Vec<String>,
        tool_roots: Vec<String>,
    ) -> (r: RootPlan)
        ensures
            r.write_roots.deep_view() == seq![project_root@],
            r.extra_read_roots.deep_view() == tool_roots.deep_view()
                + extra_read_roots.deep_view(),
    {
        let plan = RestrictedFs::with_local_fs_and_reads_and_writes(
            project_root,
            extra_read_roots,
            Vec::new(),
            tool_roots,
        );
        assert(plan.write_roots.deep_view() =~= seq![project_root@]);
        plan
    }

    /// The roots for writes to `project_root` and `extra_write_roots`, and reads
    /// of `extra_read_roots` besides.
    pub fn with_local_fs_and_reads_and_writes(
        project_root: String,
        extra_read_roots: Vec<String>,
        extra_write_roots: Vec<String>,
        tool_roots: Vec<String>,
    ) -> (r: RootPlan)
        ensures
            r.write_roots.deep_view() == seq![project_root@] + extra_write_roots.deep_view(),
            r.extra_read_roots.deep_view() == tool_roots.deep_view()
                + extra_read_roots.deep_view(),
    {
        let ghost reads = extra_read_roots.deep_view();
        let ghost writes = extra_write_roots.deep_view();
        let ghost tools = tool_roots.deep_view();
        let ghost root = project_root@;
        let mut read_roots = tool_roots;
        let mut more_reads = extra_read_roots;
        read_roots.append(&mut more_reads);
        let mut write_roots: Vec<String> = Vec::new();
        write_roots.push(project_root);
        let mut more_writes = extra_write_roots;
        write_roots.append(&mut more_writes);
        assert(read_roots.deep_view() =~= tools + reads);
        assert(write_roots.deep_view() =~= seq![root] + writes);
        RootPlan { write_roots, extra_read_roots: read_roots }
    }
}

// ---------------------------------------------------------------------------
// Checks
// ---------------------------------------------------------------------------

/// What looking a path up gave: what the path resolves to; where it is a link whose
/// target does not exist, what looking that target up gave; and its last name and
/// what its parent resolves to.
#[derive(Debug)]
pub struct PathProbe {
    pub direct: Option<String>,
    pub link: Option<Box<PathProbe>>,
    pub name: Option<String>,
    pub parent: Option<String>,
}

/// Where the entry of a path itself stands, whatever it links to.
pub open spec fn in_place(probe: PathProbe) -> Option<Seq<char>> {
    match (probe.parent, probe.name) {
        (Some(parent), Some(name)) => Some(joined_path(parent@, name@)),
        _ => None,
    }
}

/// What a path resolves to. A link resolves to what its target resolves to; a path
/// that does not exist yet resolves to its name in its parent.
pub open spec fn resolved(probe: PathProbe) -> Option<Seq<char>>
    decreases probe,
{
    match probe.direct {
        Some(c) => Some(c@),
        None => match probe.link {
            Some(target) => resolved(*target),
            None => in_place(probe),
        },
    }
}

/// Whether `r` refuses `path` for `reason`.
pub open spec fn refuses(
    r: Result<(), SandboxError>,
    path: Seq<char>,
    reason: Seq<char>,
) -> bool {
    r matches Err(SandboxError::PathDenied { path: p, reason: why }) && p@ == path && why@ == reason
}

/// Whether `r` refuses `path` for the reason given, or lets it through where there is
/// none.
pub open spec fn answers(
    r: Result<(), SandboxError>,
    path: Seq<char>,
    refusal: Option<Seq<char>>,
) -> bool {
    match refusal {
        Some(reason) => refuses(r, path, reason),
        None => r is Ok,
    }
}

/// Why a path is refused that cannot be resolved.
pub const UNRESOLVED: &'static str =
    "path could not be canonicalized (intermediate component may not exist)";

/// Why a path is refused of which nothing exists.
pub const NO_ANCESTOR: &'static str = "no existing ancestor could be canonicalized";

/// Why a path is refused that resolves to `canonical`.
pub open spec fn outside(kind: Seq<char>, canonical: Seq<char>) -> Seq<char> {
    "path resolves outside "@ + kind + " roots: "@ + canonical
}

fn deny(path: &str, reason: &str) -> (r: Result<(), SandboxError>)
    ensures
        refuses(r, path@, reason@),
{
    Err(SandboxError::PathDenied { path: path.to_owned(), reason: reason.to_owned() })
}

/// Lets `path` through exactly if `canonical` is under one of `roots`.
fn check_against(path: &str, canonical: &str, roots: &Vec<String>, kind: &str) -> (r: Result<
    (),
    SandboxError,
>)
    ensures
        r is Ok <==> under_any(canonical@, roots.deep_view()),
        r is Err ==> refuses(r, path@, outside(kind@, canonical@)),
{
    if starts_with_any(canonical, roots) {
        return Ok(());
    }
    let mut reason = "path resolves outside ".to_owned();
    reason.append(kind);
    reason.append(" roots: ");
    reason.append(canonical);
    deny(path, reason.as_str())
}

/// An ancestor of a path: its last name, and whether it exists.
#[derive(Debug)]
pub struct Ancestor {
    pub name: Option<String>,
    pub exists: bool,
}

/// How many ancestors are passed over before one that exists, or the last.
pub open spec fn missing(ancestors: Seq<Ancestor>) -> int
    decreases ancestors.len(),
{
    if ancestors.len() <= 1 || ancestors.first().exists {
        0
    } else {
        1 + missing(ancestors.drop_first())
    }
}

/// How far the part of a path that is missing climbs above the ancestor that
/// exists. An ancestor without a name ends in `..`, which takes back the name before
/// it.
pub open spec fn missing_climbs(passed: Seq<Ancestor>) -> nat
    decreases passed.len(),
{
    if passed.len() == 0 {
        0
    } else {
        let below = missing_climbs(passed.drop_last());
        match passed.last().name {
            Some(_) if below > 0 => (below - 1) as nat,
            Some(_) => 0,
            None => below + 1,
        }
    }
}

/// The path that the names of the ancestors passed over make, without those that
/// are taken back.
pub open spec fn missing_suffix(passed: Seq<Ancestor>) -> Seq<char>
    decreases passed.len(),
{
    if passed.len() == 0 {
        Seq::empty()
    } else {
        let below = missing_suffix(passed.drop_last());
        match passed.last().name {
            Some(name) if missing_climbs(passed.drop_last()) == 0 => joined_path(name@, below),
            _ => below,
        }
    }
}

proof fn lemma_missing_is(ancestors: Seq<Ancestor>, n: int)
    requires
        0 <= n < ancestors.len(),
        forall|k: int| 0 <= k < n ==> !(#[trigger] ancestors[k]).exists,
        ancestors[n].exists || n == ancestors.len() - 1,
    ensures
        missing(ancestors) == n,
    decreases ancestors.len(),
{
    if n > 0 {
        assert(!ancestors[0].exists);
        assert forall|k: int| 0 <= k < n - 1 implies !(#[trigger]
        ancestors.drop_first()[k]).exists by {
            assert(!ancestors[k + 1].exists);
        }
        lemma_missing_is(ancestors.drop_first(), n - 1);
    }
}

/// The part of a path that does not exist yet.
#[derive(Debug)]
pub struct MissingPart {
    /// How many ancestors to pass over to come to one that exists.
    pub passed: usize,
    /// How far the part climbs above that ancestor.
    pub climbs: usize,
    /// What it then goes down.
    pub suffix: String,
}

/// The ancestor to resolve, and the way from there. `ancestors` are the path itself,
/// its parent, and so on up.
pub fn nearest_ancestor(ancestors: &Vec<Ancestor>) -> (r: MissingPart)
    requires
        ancestors@.len() > 0,
    ensures
        r.passed == missing(ancestors@),
        r.passed < ancestors@.len(),
        r.climbs == missing_climbs(ancestors@.take(r.passed as int)),
        r.suffix@ == missing_suffix(ancestors@.take(r.passed as int)),
{
    let mut climbs: usize = 0;
    let mut suffix = String::new();
    let mut i: usize = 0;
    while i < ancestors.len() - 1 && !ancestors[i].exists
        invariant
            i < ancestors@.len(),
            forall|k: int| 0 <= k < i ==> !(#[trigger] ancestors@[k]).exists,
            climbs <= i,
            climbs == missing_climbs(ancestors@.take(i as int)),
            suffix@ == missing_suffix(ancestors@.take(i as int)),
        decreases ancestors@.len() - i,
    {
        assert(ancestors@.take(i + 1).drop_last() =~= ancestors@.take(i as int));
        match &ancestors[i].name {
            Some(name) => {
                if climbs > 0 {
                    climbs -= 1;
                } else {
                    suffix = join_path(name.as_str(), suffix.as_str());
                }
            },
            None => {
                climbs += 1;
            },
        }
        i += 1;
    }
    proof {
        lemma_missing_is(ancestors@, i as int);
    }
    MissingPart { passed: i, climbs, suffix }
}

/// What is done to a path.
#[derive(Debug, Clone, Copy, PartialEq, Eq, Structural)]
pub enum FsOp {
    Read,
    ReadToString,
    Metadata,
    ListDir,
    Exists,
    Walk,
    WalkEntries,
    Search,
    Write,
    RemoveFile,
    RemoveDirAll,
}

/// Whether the operation takes the entry of a path away.
pub open spec fn removes(op: FsOp) -> bool {
    op == FsOp::RemoveFile || op == FsOp::RemoveDirAll
}

impl RestrictedFs {
    /// Whether what a path resolves to may be read.
    pub open spec fn readable(&self, canonical: Seq<char>) -> bool {
        under_any(canonical, self.canonical_read_roots.deep_view())
    }

    /// Whether what a path resolves to may be written.
    pub open spec fn writable(&self, canonical: Seq<char>) -> bool {
        under_any(canonical, self.canonical_write_roots.deep_view())
    }

    /// Whether every write root is a read root.
    pub open spec fn writes_are_readable(&self) -> bool {
        forall|i: int|
            0 <= i < self.canonical_write_roots@.len()
                ==> self.canonical_read_roots.deep_view().contains(
                #[trigger] self.canonical_write_roots.deep_view()[i],
            )
    }

    /// Why a path may not be read, if it may not.
    pub open spec fn read_refusal(&self, probe: PathProbe) -> Option<Seq<char>> {
        match resolved(probe) {
            Some(c) if self.readable(c) => None,
            Some(c) => Some(outside("readable"@, c)),
            None => Some(UNRESOLVED@),
        }
    }

    /// Why a path may not be written, if it may not.
    pub open spec fn write_refusal(&self, probe: PathProbe) -> Option<Seq<char>> {
        match resolved(probe) {
            Some(c) if self.writable(c) => None,
            Some(c) => Some(outside("writable"@, c)),
            None => Some(UNRESOLVED@),
        }
    }

    /// Why the entry of a path may not be put in place or taken away, if it may not:
    /// what it resolves to and the entry itself have to lie under write roots.
    pub open spec fn entry_refusal(&self, probe: PathProbe) -> Option<Seq<char>> {
        match (self.write_refusal(probe), in_place(probe)) {
            (None, Some(e)) if !self.writable(e) => Some(outside("writable"@, e)),
            (refusal, _) => refusal,
        }
    }

    /// Why a directory may not be made at a path, if it may not. Where the path
    /// cannot be resolved and is no link, `ancestor` is what the nearest existing
    /// ancestor resolves to and `part` the way from there.
    pub open spec fn creation_refusal(
        &self,
        probe: PathProbe,
        ancestor: Option<Seq<char>>,
        part: MissingPart,
    ) -> Option<Seq<char>> {
        if resolved(probe) is Some || probe.link is Some {
            self.write_refusal(probe)
        } else {
            match ancestor {
                Some(a) => {
                    let full = joined_path(climbed(a, part.climbs as nat), part.suffix@);
                    if self.writable(full) {
                        None
                    } else {
                        Some(outside("writable"@, full))
                    }
                },
                None => Some(NO_ANCESTOR@),
            }
        }
    }

    /// What a path resolves to.
    fn canonicalize(probe: &PathProbe) -> (r: Option<String>)
        ensures
            r.deep_view() == resolved(*probe),
        decreases probe,
    {
        if let Some(c) = &probe.direct {
            return Some(c.clone());
        }
        if let Some(target) = &probe.link {
            return RestrictedFs::canonicalize(target);
        }
        RestrictedFs::entry(probe)
    }

    /// Where the entry of a path itself stands.
    fn entry(probe: &PathProbe) -> (r: Option<String>)
        ensures
            r.deep_view() == in_place(*probe),
    {
        if let Some(parent) = &probe.parent {
            if let Some(name) = &probe.name {
                return Some(join_path(parent.as_str(), name.as_str()));
            }
        }
        None
    }

    /// Lets a path through if it may be read.
    pub fn check_read_allowed(&self, path: &str, probe: &PathProbe) -> (r: Result<
        (),
        SandboxError,
    >)
        ensures
            answers(r, path@, self.read_refusal(*probe)),
    {
        match RestrictedFs::canonicalize(probe) {
            Some(c) => check_against(path, c.as_str(), &self.canonical_read_roots, "readable"),
            None => deny(path, UNRESOLVED),
        }
    }

    /// Lets a path through if it may be written.
    pub fn check_write_allowed(&self, path: &str, probe: &PathProbe) -> (r: Result<
        (),
        SandboxError,
    >)
        ensures
            answers(r, path@, self.write_refusal(*probe)),
    {
        match RestrictedFs::canonicalize(probe) {
            Some(c) => self.check_against_write_roots(path, c.as_str()),
            None => deny(path, UNRESOLVED),
        }
    }

    /// Lets a path through if its entry may be put in place or taken away.
    fn check_entry_allowed(&self, path: &str, probe: &PathProbe) -> (r: Result<
        (),
        SandboxError,
    >)
        ensures
            answers(r, path@, self.entry_refusal(*probe)),
    {
        match self.check_write_allowed(path, probe) {
            Ok(()) => match RestrictedFs::entry(probe) {
                Some(e) => self.check_against_write_roots(path, e.as_str()),
                None => Ok(()),
            },
            Err(e) => Err(e),
        }
    }

    /// Lets a directory be made at a path of which some part may be missing.
    pub fn check_write_allowed_for_creation(
        &self,
        path: &str,
        probe: &PathProbe,
        ancestor: &Option<String>,
        part: &MissingPart,
    ) -> (r: Result<(), SandboxError>)
        ensures
            answers(r, path@, self.creation_refusal(*probe, ancestor.deep_view(), *part)),
    {
        if let Some(c) = RestrictedFs::canonicalize(probe) {
            return self.check_against_write_roots(path, c.as_str());
        }
        if probe.link.is_some() {
            return deny(path, UNRESOLVED);
        }
        match ancestor {
            Some(a) => {
                let from = climb(a.as_str(), part.climbs);
                let full = join_path(from.as_str(), part.suffix.as_str());
                self.check_against_write_roots(path, full.as_str())
            },
            None => deny(path, NO_ANCESTOR),
        }
    }

    fn check_against_write_roots(&self, path: &str, canonical: &str) -> (r: Result<
        (),
        SandboxError,
    >)
        ensures
            r is Ok <==> self.writable(canonical@),
            r is Err ==> refuses(r, path@, outside("writable"@, canonical@)),
    {
        check_against(path, canonical, &self.canonical_write_roots, "writable")
    }

    /// Lets an operation on a path through: one that writes needs a write root, for
    /// the path and, where it takes the entry away, for the entry; any other needs a
    /// read root.
    pub fn authorize(&self, op: FsOp, path: &str, probe: &PathProbe) -> (r: Result<
        (),
        SandboxError,
    >)
        ensures
            answers(
                r,
                path@,
                if removes(op) {
                    self.entry_refusal(*probe)
                } else if op == FsOp::Write {
                    self.write_refusal(*probe)
                } else {
                    self.read_refusal(*probe)
                },
            ),
    {
        match op {
            FsOp::RemoveFile | FsOp::RemoveDirAll => self.check_entry_allowed(path, probe),
            FsOp::Write => self.check_write_allowed(path, probe),
            _ => self.check_read_allowed(path, probe),
        }
    }

    /// Lets a renaming through, which takes one entry away and puts another in place:
    /// both ends need a write root. The source is looked at first.
    pub fn authorize_rename(
        &self,
        src: &str,
        src_probe: &PathProbe,
        dst: &str,
        dst_probe: &PathProbe,
    ) -> (r: Result<(), SandboxError>)
        ensures
            match self.entry_refusal(*src_probe) {
                Some(reason) => refuses(r, src@, reason),
                None => answers(r, dst@, self.entry_refusal(*dst_probe)),
            },
    {
        match self.check_entry_allowed(src, src_probe) {
            Ok(()) => self.check_entry_allowed(dst, dst_probe),
            Err(e) => Err(e),
        }
    }
}

// ---------------------------------------------------------------------------
// Laws
// ---------------------------------------------------------------------------

/// Whatever may be written may be read, in every file system that
/// [`RestrictedFs::new`] makes.
pub proof fn law_writable_is_readable(fs: RestrictedFs, canonical: Seq<char>)
    requires
        fs.writes_are_readable(),
        fs.writable(canonical),
    ensures
        fs.readable(canonical),
{
    let writes = fs.canonical_write_roots.deep_view();
    let reads = fs.canonical_read_roots.deep_view();
    let i = choose|i: int|
        0 <= i < writes.len() && under(canonical, #[trigger] writes[i]);
    assert(reads.contains(writes[i]));
    let k = choose|k: int| 0 <= k < reads.len() && reads[k] == writes[i];
    assert(under(canonical, reads[k]));
}

/// What lies under a path that may be read or written may be read or written too.
pub proof fn law_access_reaches_down(fs: RestrictedFs, dir: Seq<char>, path: Seq<char>)
    requires
        under(path, dir),
    ensures
        fs.readable(dir) ==> fs.readable(path),
        fs.writable(dir) ==> fs.writable(path),
{
    let writes = fs.canonical_write_roots.deep_view();
    let reads = fs.canonical_read_roots.deep_view();
    if fs.readable(dir) {
        let i = choose|i: int|
            0 <= i < reads.len() && under(dir, #[trigger] reads[i]);
        law_under_is_a_partial_order(path, dir, reads[i]);
        assert(under(path, reads[i]));
    }
    if fs.writable(dir) {
        let i = choose|i: int|
            0 <= i < writes.len() && under(dir, #[trigger] writes[i]);
        law_under_is_a_partial_order(path, dir, writes[i]);
        assert(under(path, writes[i]));
    }
}

/// Whatever is let through to be written, removed, renamed or made lies under a write
/// root, through every link on the way to it.
pub proof fn law_writes_stay_under_write_roots(
    fs: RestrictedFs,
    probe: PathProbe,
    ancestor: Option<Seq<char>>,
    part: MissingPart,
)
    ensures
        fs.write_refusal(probe) is None ==> resolved(probe) is Some && fs.writable(
            resolved(probe)->0,
        ),
        fs.entry_refusal(probe) is None ==> fs.write_refusal(probe) is None && (in_place(
            probe,
        ) is Some ==> fs.writable(in_place(probe)->0)),
        fs.creation_refusal(probe, ancestor, part) is None ==> fs.writable(
            match resolved(probe) {
                Some(c) => c,
                None => joined_path(climbed(ancestor->0, part.climbs as nat), part.suffix@),
            },
        ),
{
}

/// The system paths: the usual directories, and on macOS its own.
pub proof fn law_system_paths(macos: bool, path: Seq<char>)
    ensures
        system_paths(macos).contains(path) <==> {
            ||| path == "/usr"@
            ||| path == "/lib"@
            ||| path == "/lib64"@
            ||| path == "/bin"@
            ||| path == "/sbin"@
            ||| path == "/etc"@
            ||| path == "/tmp"@
            ||| path == "/opt"@
            ||| path == "/nix"@
            ||| path == "/var"@
            ||| macos && path == "/System"@
            ||| macos && path == "/Library"@
            ||| macos && path == "/private"@
            ||| macos && path == "/Applications"@
            ||| macos && path == "/Developer"@
        },
        system_paths(macos).len() == (if macos {
            15int
        } else {
            10int
        }),
{
    let all = system_paths(macos);
    assert(all[0] == "/usr"@ && all[1] == "/lib"@ && all[2] == "/lib64"@ && all[3] == "/bin"@);
    assert(all[4] == "/sbin"@ && all[5] == "/etc"@ && all[6] == "/tmp"@ && all[7] == "/opt"@);
    assert(all[8] == "/nix"@ && all[9] == "/var"@);
    if macos {
        assert(all[10] == "/System"@ && all[11] == "/Library"@ && all[12] == "/private"@);
        assert(all[13] == "/Applications"@ && all[14] == "/Developer"@);
    }
}

/// A root counts as what it resolves to, and as it was given where it does not
/// resolve.
pub proof fn law_roots_count_as_they_resolve(probes: Seq<RootProbe>, i: int)
    requires
        0 <= i < probes.len(),
    ensures
        roots_of(probes).len() == probes.len(),
        probes[i].canonical is Some ==> roots_of(probes)[i] == probes[i].canonical->0@,
        probes[i].canonical is None ==> roots_of(probes)[i] == probes[i].path@,
{
}

/// Of paths that were looked up, those that resolve count, in order.
pub proof fn law_what_resolves_counts(list: Seq<Option<Seq<char>>>)
    ensures
        picks(
            list,
            |x: Option<Seq<char>>| x is Some,
            |x: Option<Seq<char>>| x->0,
            present(list),
        ),
    decreases list.len(),
{
    if list.len() > 0 {
        law_what_resolves_counts(list.drop_last());
        lemma_picks_last(
            list,
            |x: Option<Seq<char>>| x is Some,
            |x: Option<Seq<char>>| x->0,
            present(list.drop_last()),
        );
    }
}

/// What a path resolves to: what looking it up gave; else what its target resolves
/// to, where it is a link; else its name in what its parent resolves to.
pub proof fn law_what_a_path_resolves_to(probe: PathProbe)
    ensures
        probe.direct is Some ==> resolved(probe) == Some(probe.direct->0@),
        probe.direct is None && probe.link is Some ==> resolved(probe) == resolved(
            *(probe.link->0),
        ),
        probe.direct is None && probe.link is None && probe.parent is Some && probe.name is Some
            ==> resolved(probe) == Some(joined_path(probe.parent->0@, probe.name->0@)),
        probe.direct is None && probe.link is None && (probe.parent is None || probe.name is None)
            ==> resolved(probe) is None,
        probe.parent is Some && probe.name is Some ==> in_place(probe) == Some(
            joined_path(probe.parent->0@, probe.name->0@),
        ),
        probe.parent is None || probe.name is None ==> in_place(probe) is None,
{
}

/// A path is refused exactly where it resolves to nothing, or to what is under none of
/// the roots; the reason tells which.
pub proof fn law_what_is_refused(fs: RestrictedFs, probe: PathProbe)
    ensures
        resolved(probe) is None ==> {
            let why =
                "path could not be canonicalized (intermediate component may not exist)"@;
            &&& fs.read_refusal(probe) == Some(why)
            &&& fs.write_refusal(probe) == Some(why)
            &&& fs.entry_refusal(probe) == Some(why)
        },
        resolved(probe) is Some ==> {
            let c = resolved(probe)->0;
            let reads = exists|i: int|
                0 <= i < fs.canonical_read_roots@.len() && under(
                    c,
                    (#[trigger] fs.canonical_read_roots@[i])@,
                );
            let writes = exists|i: int|
                0 <= i < fs.canonical_write_roots@.len() && under(
                    c,
                    (#[trigger] fs.canonical_write_roots@[i])@,
                );
            &&& reads ==> fs.read_refusal(probe) is None
            &&& !reads ==> fs.read_refusal(probe) == Some(
                "path resolves outside "@ + "readable"@ + " roots: "@ + c,
            )
            &&& writes ==> fs.write_refusal(probe) is None
            &&& !writes ==> fs.write_refusal(probe) == Some(
                "path resolves outside "@ + "writable"@ + " roots: "@ + c,
            )
            &&& !writes ==> fs.entry_refusal(probe) == fs.write_refusal(probe)
        },
{
    if resolved(probe) is Some {
        let c = resolved(probe)->0;
        let r = fs.canonical_read_roots;
        let w = fs.canonical_write_roots;
        if fs.readable(c) {
            let i = choose|i: int|
                0 <= i < r.deep_view().len() && under(c, #[trigger] r.deep_view()[i]);
            assert(under(c, r@[i]@));
        }
        if fs.writable(c) {
            let i = choose|i: int|
                0 <= i < w.deep_view().len() && under(c, #[trigger] w.deep_view()[i]);
            assert(under(c, w@[i]@));
        }
        if exists|i: int| 0 <= i < r@.len() && under(c, (#[trigger] r@[i])@) {
            let i = choose|i: int| 0 <= i < r@.len() && under(c, (#[trigger] r@[i])@);
            assert(under(c, r.deep_view()[i]));
        }
        if exists|i: int| 0 <= i < w@.len() && under(c, (#[trigger] w@[i])@) {
            let i = choose|i: int| 0 <= i < w@.len() && under(c, (#[trigger] w@[i])@);
            assert(under(c, w.deep_view()[i]));
        }
    }
}

/// An entry may be taken away or put in place exactly where the path may be written
/// and the entry itself, where it can be told, is under a write root.
pub proof fn law_entries(fs: RestrictedFs, probe: PathProbe)
    ensures
        fs.entry_refusal(probe) is None <==> fs.write_refusal(probe) is None && (in_place(
            probe,
        ) is None || fs.writable(in_place(probe)->0)),
        fs.write_refusal(probe) is None && fs.entry_refusal(probe) is Some
            ==> fs.entry_refusal(probe) == Some(
            "path resolves outside "@ + "writable"@ + " roots: "@ + in_place(probe)->0,
        ),
{
}

/// A directory may be made where a write may go. Where nothing is resolved and no link
/// stands there, the way up from the nearest ancestor and down again decides.
pub proof fn law_creations(
    fs: RestrictedFs,
    probe: PathProbe,
    ancestor: Option<Seq<char>>,
    part: MissingPart,
)
    ensures
        resolved(probe) is Some ==> fs.creation_refusal(probe, ancestor, part)
            == fs.write_refusal(probe),
        resolved(probe) is None && probe.link is Some ==> fs.creation_refusal(
            probe,
            ancestor,
            part,
        ) == Some("path could not be canonicalized (intermediate component may not exist)"@),
        resolved(probe) is None && probe.link is None && ancestor is None
            ==> fs.creation_refusal(probe, ancestor, part) == Some(
            "no existing ancestor could be canonicalized"@,
        ),
        resolved(probe) is None && probe.link is None && ancestor is Some ==> {
            let full = joined_path(climbed(ancestor->0, part.climbs as nat), part.suffix@);
            &&& fs.creation_refusal(probe, ancestor, part) is None <==> fs.writable(full)
            &&& !fs.writable(full) ==> fs.creation_refusal(probe, ancestor, part) == Some(
                "path resolves outside "@ + "writable"@ + " roots: "@ + full,
            )
        },
{
}

/// Only the removal of a file and of a directory take an entry away.
pub proof fn law_what_removes()
    ensures
        removes(FsOp::RemoveFile) && removes(FsOp::RemoveDirAll),
        !removes(FsOp::Read) && !removes(FsOp::ReadToString) && !removes(FsOp::Metadata),
        !removes(FsOp::ListDir) && !removes(FsOp::Exists) && !removes(FsOp::Walk),
        !removes(FsOp::WalkEntries) && !removes(FsOp::Search) && !removes(FsOp::Write),
{
}

/// The ancestor that counts is the first that exists, or else the last.
pub proof fn law_the_first_that_exists_counts(ancestors: Seq<Ancestor>)
    requires
        ancestors.len() > 0,
    ensures
        0 <= missing(ancestors) < ancestors.len(),
        forall|k: int| 0 <= k < missing(ancestors) ==> !(#[trigger] ancestors[k]).exists,
        ancestors[missing(ancestors)].exists || missing(ancestors) == ancestors.len() - 1,
    decreases ancestors.len(),
{
    if ancestors.len() > 1 && !ancestors[0].exists {
        let rest = ancestors.drop_first();
        law_the_first_that_exists_counts(rest);
        assert forall|k: int| 0 <= k < missing(ancestors) implies !(#[trigger]
        ancestors[k]).exists by {
            if k > 0 {
                assert(!rest[k - 1].exists);
            }
        }
    }
}

/// The way through what is missing: each `..` takes back one name before it, and
/// climbs where there is none; the names that are left are gone down in order.
pub proof fn law_each_climb_takes_a_name_back(
    passed: Seq<Ancestor>,
    up: Ancestor,
    named: Ancestor,
)
    requires
        up.name is None,
        named.name is Some,
    ensures
        missing_climbs(passed.push(up).push(named)) == missing_climbs(passed),
        missing_suffix(passed.push(up).push(named)) == missing_suffix(passed),
        missing_climbs(passed.push(up)) == missing_climbs(passed) + 1,
        missing_climbs(passed) == 0 ==> missing_climbs(passed.push(named)) == 0
            && missing_suffix(passed.push(named)) == joined_path(
            named.name->0@,
            missing_suffix(passed),
        ),
        missing_climbs(Seq::<Ancestor>::empty()) == 0,
        missing_suffix(Seq::<Ancestor>::empty()) == Seq::<char>::empty(),
{
    assert(passed.push(named).drop_last() =~= passed);
    assert(passed.push(up).drop_last() =~= passed);
    assert(missing_climbs(passed.push(up)) == missing_climbs(passed) + 1);
    assert(missing_suffix(passed.push(up)) == missing_suffix(passed));
    assert(passed.push(up).push(named).drop_last() =~= passed.push(up));
}

/// A refusal names the path as it was given and the reason; where there is no reason,
/// the path is let through.
pub proof fn law_refusals_name_the_path(
    r: Result<(), SandboxError>,
    path: Seq<char>,
    reason: Seq<char>,
)
    ensures
        answers(r, path, None) <==> r is Ok,
        answers(r, path, Some(reason)) <==> {
            &&& r is Err
            &&& r->Err_0 is PathDenied
            &&& r->Err_0->path@ == path
            &&& r->Err_0->reason@ == reason
        },
        refuses(r, path, reason) <==> answers(r, path, Some(reason)),
{
}

} // verus!
