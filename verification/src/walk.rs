//! Walking a directory tree.
//!
//! The tree is listed directory by directory, from outside; here it is decided
//! which directory comes next and what is kept.

use vstd::prelude::*;

use crate::paths::{file_name, last_name};
use crate::sandbox::{glob_matches, DirEntry, FileGlob, FileMetadata};

verus! {

/// The model of an entry of a directory.
#[verifier::ext_equal]
pub struct EntryView {
    pub name: Seq<char>,
    pub path: Seq<char>,
    pub metadata: FileMetadata,
}

impl DeepView for DirEntry {
    type V = EntryView;

    open spec fn deep_view(&self) -> EntryView {
        EntryView { name: self.name@, path: self.path@, metadata: self.metadata }
    }
}

/// What a walk keeps.
#[derive(Debug)]
pub enum WalkKind {
    /// Everything, directories too.
    Entries,
    /// The files that a pattern takes.
    Files(FileGlob),
}

/// Whether a walk keeps an entry.
pub open spec fn kept(kind: WalkKind, e: EntryView) -> bool {
    match kind {
        WalkKind::Entries => true,
        WalkKind::Files(glob) => !e.metadata.is_dir && (glob_matches(glob.pattern(), e.path)
            || glob_matches(glob.pattern(), last_name(e.path))),
    }
}

/// `found` with `e` behind it, if the walk keeps it.
pub open spec fn with_kept(kind: WalkKind, found: Seq<EntryView>, e: EntryView) -> Seq<EntryView> {
    if kept(kind, e) {
        found.push(e)
    } else {
        found
    }
}

/// What a walk does next.
#[derive(Debug)]
pub enum WalkStep {
    /// This directory is to be listed, and the walk to be told of its entries.
    List(String),
    /// Everything has been seen.
    Done,
}

/// A walk in progress.
#[derive(Debug)]
pub struct TreeWalk {
    pub kind: WalkKind,
    /// The entries still to be seen, the next one last.
    pub todo: Vec<DirEntry>,
    pub found: Vec<DirEntry>,
}

impl TreeWalk {
    /// The entries still to be seen, the next one first.
    pub open spec fn ahead(&self) -> Seq<EntryView> {
        self.todo.deep_view().reverse()
    }
}

/// The entries kept before the first directory of `ahead`, behind `found`.
pub open spec fn files_kept(kind: WalkKind, found: Seq<EntryView>, ahead: Seq<EntryView>) -> Seq<
    EntryView,
>
    decreases ahead.len(),
{
    if ahead.len() == 0 || ahead.first().metadata.is_dir {
        found
    } else {
        files_kept(kind, with_kept(kind, found, ahead.first()), ahead.drop_first())
    }
}

/// What is left of `ahead` from its first directory on.
pub open spec fn from_first_dir(ahead: Seq<EntryView>) -> Seq<EntryView>
    decreases ahead.len(),
{
    if ahead.len() == 0 || ahead.first().metadata.is_dir {
        ahead
    } else {
        from_first_dir(ahead.drop_first())
    }
}

/// Whether a walk that stood at `before` goes on to `after` with `step`: it keeps what
/// it keeps of the files before the next directory, and that directory, and asks for
/// it; or there is no directory left, and it is done.
pub open spec fn goes_on(before: TreeWalk, step: WalkStep, after: TreeWalk) -> bool {
    let rest = from_first_dir(before.ahead());
    let files = files_kept(before.kind, before.found.deep_view(), before.ahead());
    &&& after.kind == before.kind
    &&& if rest.len() == 0 {
        &&& step is Done
        &&& after.ahead() == rest
        &&& after.found.deep_view() == files
    } else {
        &&& step matches WalkStep::List(dir) && dir@ == rest.first().path
        &&& after.ahead() == rest.drop_first()
        &&& after.found.deep_view() == with_kept(before.kind, files, rest.first())
    }
}

/// Whether a walk that stood at `before` stands at `after` once it has been told of
/// `entries`: they come before everything else.
pub open spec fn is_told(before: TreeWalk, entries: Seq<EntryView>, after: TreeWalk) -> bool {
    &&& after.ahead() == entries + before.ahead()
    &&& after.found == before.found
    &&& after.kind == before.kind
}

impl TreeWalk {
    /// A walk that begins with the entries of a directory.
    pub fn new(kind: WalkKind, entries: Vec<DirEntry>) -> (r: TreeWalk)
        ensures
            r.kind == kind,
            r.ahead() == entries.deep_view(),
            r.found.deep_view() == Seq::<EntryView>::empty(),
    {
        let mut r = TreeWalk { kind, todo: Vec::new(), found: Vec::new() };
        assert(r.found.deep_view() =~= Seq::empty());
        assert(r.ahead() =~= Seq::empty());
        let ghost all = entries.deep_view();
        r.enter(entries);
        assert(r.ahead() =~= all);
        r
    }

    /// Tells the walk of the entries of the directory that it asked for: they come
    /// before everything else.
    pub fn enter(&mut self, entries: Vec<DirEntry>)
        ensures
            is_told(*old(self), entries.deep_view(), *final(self)),
    {
        let ghost all = entries.deep_view();
        let ghost rest = self.ahead();
        let mut list = entries;
        assert(all.take(all.len() as int) =~= all);
        assert(all.skip(all.len() as int) + rest =~= rest);
        while list.len() > 0
            invariant
                list@.len() <= all.len(),
                list.deep_view() == all.take(list@.len() as int),
                self.ahead() == all.skip(list@.len() as int) + rest,
                self.found == old(self).found,
                self.kind == old(self).kind,
            decreases list@.len(),
        {
            let ghost n = list@.len() as int;
            let ghost had = self.todo.deep_view();
            let ghost before = list.deep_view();
            if let Some(e) = list.pop() {
                assert(before[n - 1] == e.deep_view());
                assert(all[n - 1] == e.deep_view());
                self.todo.push(e);
                assert(self.todo.deep_view() =~= had.push(e.deep_view()));
                assert(self.ahead() =~= seq![e.deep_view()] + had.reverse());
                assert(self.ahead() =~= all.skip(n - 1) + rest);
                assert(list.deep_view() =~= all.take(n - 1));
            }
        }
        assert(all.skip(0) =~= all);
    }

    /// Whether the walk keeps an entry.
    fn keeps(&self, e: &DirEntry) -> (r: bool)
        ensures
            r == kept(self.kind, e.deep_view()),
    {
        match &self.kind {
            WalkKind::Entries => true,
            WalkKind::Files(glob) => {
                !e.metadata.is_dir && glob.selects(
                    e.path.as_str(),
                    file_name(e.path.as_str()).as_str(),
                )
            },
        }
    }

    /// Goes on to the next directory.
    pub fn next(&mut self) -> (r: WalkStep)
        ensures
            goes_on(*old(self), r, *final(self)),
    {
        while self.todo.len() > 0
            invariant
                self.kind == old(self).kind,
                from_first_dir(self.ahead()) == from_first_dir(old(self).ahead()),
                files_kept(self.kind, self.found.deep_view(), self.ahead()) == files_kept(
                    old(self).kind,
                    old(self).found.deep_view(),
                    old(self).ahead(),
                ),
            decreases self.todo@.len(),
        {
            let ghost ahead = self.ahead();
            let ghost had = self.found.deep_view();
            let ghost stack = self.todo.deep_view();
            if let Some(e) = self.todo.pop() {
                let ghost view = e.deep_view();
                assert(ahead.first() == view);
                assert(self.todo.deep_view() =~= stack.drop_last());
                assert(self.ahead() =~= ahead.drop_first());
                let is_dir = e.metadata.is_dir;
                let path = e.path.clone();
                if self.keeps(&e) {
                    self.found.push(e);
                    assert(self.found.deep_view() =~= had.push(view));
                }
                assert(self.found.deep_view() == with_kept(self.kind, had, view));
                if is_dir {
                    return WalkStep::List(path);
                }
            }
        }
        WalkStep::Done
    }
}

// ---------------------------------------------------------------------------
// Laws
// ---------------------------------------------------------------------------

/// A file, or a directory with what is in it.
pub enum Node {
    File(EntryView),
    Dir(EntryView, Seq<Node>),
}

/// Everything in `nodes` that a walk keeps, each directory before what is in it.
pub open spec fn in_order(kind: WalkKind, nodes: Seq<Node>) -> Seq<EntryView>
    decreases nodes,
{
    if nodes.len() == 0 {
        Seq::empty()
    } else {
        let rest = in_order(kind, nodes.drop_first());
        match nodes[0] {
            Node::File(e) => with_kept(kind, Seq::empty(), e) + rest,
            Node::Dir(e, inner) => with_kept(kind, Seq::empty(), e) + in_order(kind, inner) + rest,
        }
    }
}

proof fn lemma_in_order_add(kind: WalkKind, a: Seq<Node>, b: Seq<Node>)
    ensures
        in_order(kind, a + b) == in_order(kind, a) + in_order(kind, b),
    decreases a.len(),
{
    if a.len() == 0 {
        assert(a + b =~= b);
        assert(in_order(kind, a) + in_order(kind, b) =~= in_order(kind, b));
    } else {
        assert((a + b).drop_first() =~= a.drop_first() + b);
        assert((a + b)[0] == a[0]);
        lemma_in_order_add(kind, a.drop_first(), b);
        assert(in_order(kind, a + b) =~= in_order(kind, a) + in_order(kind, b));
    }
}

/// How many files and directories there are in `nodes`.
pub open spec fn size(nodes: Seq<Node>) -> nat
    decreases nodes,
{
    if nodes.len() == 0 {
        0
    } else {
        let rest = size(nodes.drop_first());
        match nodes[0] {
            Node::File(_) => 1 + rest,
            Node::Dir(_, inner) => 1 + size(inner) + rest,
        }
    }
}

proof fn lemma_size_add(a: Seq<Node>, b: Seq<Node>)
    ensures
        size(a + b) == size(a) + size(b),
    decreases a.len(),
{
    if a.len() == 0 {
        assert(a + b =~= b);
    } else {
        assert((a + b).drop_first() =~= a.drop_first() + b);
        assert((a + b)[0] == a[0]);
        lemma_size_add(a.drop_first(), b);
    }
}

/// What a walk has found in the end: it takes the nodes one by one, and puts what
/// is in a directory before everything else.
pub open spec fn walked(kind: WalkKind, found: Seq<EntryView>, nodes: Seq<Node>) -> Seq<EntryView>
    decreases size(nodes),
    via walked_decreases
{
    if nodes.len() == 0 {
        found
    } else {
        match nodes[0] {
            Node::File(e) => walked(kind, with_kept(kind, found, e), nodes.drop_first()),
            Node::Dir(e, inner) => walked(
                kind,
                with_kept(kind, found, e),
                inner + nodes.drop_first(),
            ),
        }
    }
}

#[via_fn]
proof fn walked_decreases(kind: WalkKind, found: Seq<EntryView>, nodes: Seq<Node>) {
    if nodes.len() > 0 {
        match nodes[0] {
            Node::Dir(e, inner) => {
                lemma_size_add(inner, nodes.drop_first());
            },
            _ => {},
        }
    }
}

/// Taking nodes one by one finds everything that a walk keeps, once, and each directory
/// before what is in it.
pub proof fn law_walk_goes_in_order(kind: WalkKind, found: Seq<EntryView>, nodes: Seq<Node>)
    ensures
        walked(kind, found, nodes) == found + in_order(kind, nodes),
    decreases size(nodes),
{
    if nodes.len() == 0 {
        assert(found + in_order(kind, nodes) =~= found);
    } else {
        let rest = nodes.drop_first();
        match nodes[0] {
            Node::File(e) => {
                law_walk_goes_in_order(kind, with_kept(kind, found, e), rest);
                assert(found + in_order(kind, nodes) =~= with_kept(kind, found, e) + in_order(
                    kind,
                    rest,
                ));
            },
            Node::Dir(e, inner) => {
                lemma_size_add(inner, rest);
                lemma_in_order_add(kind, inner, rest);
                law_walk_goes_in_order(kind, with_kept(kind, found, e), inner + rest);
                assert(found + in_order(kind, nodes) =~= with_kept(kind, found, e) + in_order(
                    kind,
                    inner + rest,
                ));
            },
        }
    }
}

impl Node {
    /// What a directory says of the file or directory.
    pub open spec fn entry(self) -> EntryView {
        match self {
            Node::File(e) => e,
            Node::Dir(e, _) => e,
        }
    }

    /// What is in the directory.
    pub open spec fn inner(self) -> Seq<Node> {
        match self {
            Node::File(_) => Seq::empty(),
            Node::Dir(_, inner) => inner,
        }
    }
}

/// What a directory that holds `nodes` says of them.
pub open spec fn entries_of(nodes: Seq<Node>) -> Seq<EntryView> {
    nodes.map_values(|n: Node| n.entry())
}

/// Whether exactly the directories among `nodes`, and in them, are called directories.
pub open spec fn well_told(nodes: Seq<Node>) -> bool
    decreases nodes,
{
    forall|i: int|
        0 <= i < nodes.len() ==> match #[trigger] nodes[i] {
            Node::File(e) => !e.metadata.is_dir,
            Node::Dir(e, inner) => e.metadata.is_dir && well_told(inner),
        }
}

/// What is left of `nodes` from the first directory on.
pub open spec fn from_dir(nodes: Seq<Node>) -> Seq<Node>
    decreases nodes.len(),
{
    if nodes.len() == 0 || nodes[0] is Dir {
        nodes
    } else {
        from_dir(nodes.drop_first())
    }
}

/// What is ahead of a walk with `nodes` ahead of it once it has been told of the next
/// directory.
pub open spec fn with_next_dir(nodes: Seq<Node>) -> Seq<Node> {
    from_dir(nodes)[0].inner() + from_dir(nodes).drop_first()
}

proof fn lemma_from_dir(kind: WalkKind, found: Seq<EntryView>, nodes: Seq<Node>)
    requires
        well_told(nodes),
    ensures
        well_told(from_dir(nodes)),
        size(from_dir(nodes)) <= size(nodes),
        from_dir(nodes).len() > 0 ==> from_dir(nodes)[0] is Dir,
        from_first_dir(entries_of(nodes)) == entries_of(from_dir(nodes)),
        walked(kind, found, nodes) == walked(
            kind,
            files_kept(kind, found, entries_of(nodes)),
            from_dir(nodes),
        ),
    decreases nodes.len(),
{
    let entries = entries_of(nodes);
    if nodes.len() > 0 {
        assert(entries.first() == nodes[0].entry());
        assert(entries.first().metadata.is_dir == (nodes[0] is Dir));
        if nodes[0] is File {
            let rest = nodes.drop_first();
            assert(entries.drop_first() =~= entries_of(rest));
            assert forall|i: int| 0 <= i < rest.len() implies match #[trigger] rest[i] {
                Node::File(e) => !e.metadata.is_dir,
                Node::Dir(e, inner) => e.metadata.is_dir && well_told(inner),
            } by {
                assert(rest[i] == nodes[i + 1]);
            }
            lemma_from_dir(kind, with_kept(kind, found, nodes[0].entry()), rest);
        }
    }
}

proof fn lemma_with_next_dir(nodes: Seq<Node>)
    requires
        well_told(nodes),
        from_dir(nodes).len() > 0,
    ensures
        well_told(with_next_dir(nodes)),
        size(with_next_dir(nodes)) < size(nodes),
        entries_of(with_next_dir(nodes)) == entries_of(from_dir(nodes)[0].inner()) + entries_of(
            from_dir(nodes),
        ).drop_first(),
{
    lemma_from_dir(WalkKind::Entries, Seq::empty(), nodes);
    let left = from_dir(nodes);
    let inner = left[0].inner();
    let now = with_next_dir(nodes);
    lemma_size_add(inner, left.drop_first());
    assert(left[0] is Dir);
    assert(well_told(inner));
    assert forall|i: int| 0 <= i < now.len() implies match #[trigger] now[i] {
        Node::File(e) => !e.metadata.is_dir,
        Node::Dir(e, deeper) => e.metadata.is_dir && well_told(deeper),
    } by {
        if i < inner.len() {
            assert(now[i] == inner[i]);
        } else {
            assert(now[i] == left[i - inner.len() + 1]);
        }
    }
    assert(entries_of(now) =~= entries_of(inner) + entries_of(left).drop_first());
}

/// A step of a walk that has `nodes` ahead of it leaves what it finds in the end as it
/// was: either it is done, and that is what it has found; or it asks for the next
/// directory and, told of what is in there, has that and the rest ahead of it, which is
/// less than before.
pub proof fn law_a_step_keeps_what_is_found(
    before: TreeWalk,
    step: WalkStep,
    between: TreeWalk,
    after: TreeWalk,
    nodes: Seq<Node>,
)
    requires
        well_told(nodes),
        before.ahead() == entries_of(nodes),
        goes_on(before, step, between),
    ensures
        step is Done <==> from_dir(nodes).len() == 0,
        step is Done ==> between.found.deep_view() == walked(
            before.kind,
            before.found.deep_view(),
            nodes,
        ),
        step matches WalkStep::List(dir) ==> {
            let next = from_dir(nodes)[0];
            &&& next is Dir
            &&& dir@ == next.entry().path
            &&& is_told(between, entries_of(next.inner()), after) ==> {
                &&& after.ahead() == entries_of(with_next_dir(nodes))
                &&& well_told(with_next_dir(nodes))
                &&& size(with_next_dir(nodes)) < size(nodes)
                &&& after.kind == before.kind
                &&& walked(after.kind, after.found.deep_view(), with_next_dir(nodes)) == walked(
                    before.kind,
                    before.found.deep_view(),
                    nodes,
                )
            }
        },
{
    let found = before.found.deep_view();
    lemma_from_dir(before.kind, found, nodes);
    if from_dir(nodes).len() > 0 {
        lemma_with_next_dir(nodes);
        assert(entries_of(from_dir(nodes)).first() == from_dir(nodes)[0].entry());
    }
}

/// Whether a walk that stands at `start`, with `nodes` ahead of it, has come to its end
/// at `end`: step by step, told of what is in each directory that it asked for, of which
/// there are at most `steps`.
pub open spec fn runs(start: TreeWalk, nodes: Seq<Node>, end: TreeWalk, steps: nat) -> bool
    decreases steps,
{
    exists|step: WalkStep, between: TreeWalk|
        {
            &&& #[trigger] goes_on(start, step, between)
            &&& match step {
                WalkStep::Done => end == between,
                WalkStep::List(_) => steps > 0 && exists|next: TreeWalk|
                    {
                        &&& #[trigger] is_told(
                            between,
                            entries_of(from_dir(nodes)[0].inner()),
                            next,
                        )
                        &&& runs(next, with_next_dir(nodes), end, (steps - 1) as nat)
                    },
            }
        }
}

/// A walk finds everything in the tree that it keeps, once, and each directory before
/// what is in it.
pub proof fn law_a_walk_finds_the_tree(
    start: TreeWalk,
    nodes: Seq<Node>,
    end: TreeWalk,
    steps: nat,
)
    requires
        well_told(nodes),
        start.ahead() == entries_of(nodes),
        runs(start, nodes, end, steps),
    ensures
        end.found.deep_view() == start.found.deep_view() + in_order(start.kind, nodes),
    decreases steps,
{
    let (step, between) = choose|step: WalkStep, between: TreeWalk|
        {
            &&& #[trigger] goes_on(start, step, between)
            &&& match step {
                WalkStep::Done => end == between,
                WalkStep::List(_) => steps > 0 && exists|next: TreeWalk|
                    {
                        &&& #[trigger] is_told(
                            between,
                            entries_of(from_dir(nodes)[0].inner()),
                            next,
                        )
                        &&& runs(next, with_next_dir(nodes), end, (steps - 1) as nat)
                    },
            }
        };
    law_walk_goes_in_order(start.kind, start.found.deep_view(), nodes);
    if step is Done {
        law_a_step_keeps_what_is_found(start, step, between, between, nodes);
    } else {
        let next = choose|next: TreeWalk|
            {
                &&& #[trigger] is_told(between, entries_of(from_dir(nodes)[0].inner()), next)
                &&& runs(next, with_next_dir(nodes), end, (steps - 1) as nat)
            };
        law_a_step_keeps_what_is_found(start, step, between, next, nodes);
        law_a_walk_finds_the_tree(next, with_next_dir(nodes), end, (steps - 1) as nat);
        law_walk_goes_in_order(next.kind, next.found.deep_view(), with_next_dir(nodes));
    }
}

// ---------------------------------------------------------------------------
// Laws of steps
// ---------------------------------------------------------------------------

/// What a walk keeps: everything, or of the files those that the pattern takes by
/// their path or by their name.
pub proof fn law_what_is_kept(kind: WalkKind, e: EntryView)
    ensures
        kind is Entries ==> kept(kind, e),
        kind is Files && e.metadata.is_dir ==> !kept(kind, e),
        kind is Files && !e.metadata.is_dir ==> {
            let pattern = kind->Files_0.pattern();
            kept(kind, e) <==> glob_matches(pattern, e.path) || glob_matches(
                pattern,
                last_name(e.path),
            )
        },
{
}

/// The model of an entry holds what it holds.
pub proof fn law_models_hold_the_fields(e: DirEntry)
    ensures
        e.deep_view().name == e.name@,
        e.deep_view().path == e.path@,
        e.deep_view().metadata == e.metadata,
{
}

proof fn lemma_files_kept(
    kind: WalkKind,
    found: Seq<EntryView>,
    files: Seq<EntryView>,
    behind: Seq<EntryView>,
)
    requires
        forall|k: int| 0 <= k < files.len() ==> !(#[trigger] files[k]).metadata.is_dir,
        behind.len() == 0 || behind[0].metadata.is_dir,
    ensures
        files_kept(kind, found, files + behind) == found + files.filter(
            |e: EntryView| kept(kind, e),
        ),
        from_first_dir(files + behind) == behind,
    decreases files.len(),
{
    let p = |e: EntryView| kept(kind, e);
    reveal(Seq::filter);
    if files.len() == 0 {
        assert(files + behind =~= behind);
        assert(found + files.filter(p) =~= found);
    } else {
        let f = files[0];
        let rest = files.drop_first();
        let all = files + behind;
        assert(all.first() == f);
        assert(all.drop_first() =~= rest + behind);
        assert forall|k: int| 0 <= k < rest.len() implies !(#[trigger]
        rest[k]).metadata.is_dir by {
            assert(rest[k] == files[k + 1]);
        }
        lemma_files_kept(kind, with_kept(kind, found, f), rest, behind);
        assert(files =~= seq![f] + rest);
        Seq::filter_distributes_over_add(seq![f], rest, p);
        assert(seq![f].drop_last() =~= Seq::empty());
        assert(seq![f].drop_last().filter(p) =~= Seq::empty());
        assert(with_kept(kind, found, f) + rest.filter(p) =~= found + files.filter(p));
    }
}

/// A step of a walk goes through the files ahead, in order, up to the first directory:
/// it keeps what it keeps of them and of the directory, asks for the directory, and
/// leaves what stands behind it for later.
pub proof fn law_a_step_goes_to_the_next_directory(
    before: TreeWalk,
    step: WalkStep,
    after: TreeWalk,
    files: Seq<EntryView>,
    dir: EntryView,
    behind: Seq<EntryView>,
)
    requires
        goes_on(before, step, after),
        before.ahead() == files + seq![dir] + behind,
        forall|k: int| 0 <= k < files.len() ==> !(#[trigger] files[k]).metadata.is_dir,
        dir.metadata.is_dir,
    ensures
        step is List && step->List_0@ == dir.path,
        after.ahead() == behind,
        after.found.deep_view() == before.found.deep_view() + files.push(dir).filter(
            |e: EntryView| kept(before.kind, e),
        ),
        after.kind == before.kind,
{
    let p = |e: EntryView| kept(before.kind, e);
    let rest = seq![dir] + behind;
    assert(files + seq![dir] + behind =~= files + rest);
    lemma_files_kept(before.kind, before.found.deep_view(), files, rest);
    assert(rest.drop_first() =~= behind);
    reveal(Seq::filter);
    assert(files.push(dir).drop_last() =~= files);
    assert(after.found.deep_view() =~= before.found.deep_view() + files.push(dir).filter(p));
}

/// A walk that has only files ahead keeps what it keeps of them, and is done.
pub proof fn law_a_walk_ends_with_the_last_file(before: TreeWalk, step: WalkStep, after: TreeWalk)
    requires
        goes_on(before, step, after),
        forall|k: int|
            0 <= k < before.ahead().len() ==> !(#[trigger] before.ahead()[k]).metadata.is_dir,
    ensures
        step is Done,
        after.ahead().len() == 0,
        after.found.deep_view() == before.found.deep_view() + before.ahead().filter(
            |e: EntryView| kept(before.kind, e),
        ),
{
    let none = Seq::<EntryView>::empty();
    lemma_files_kept(before.kind, before.found.deep_view(), before.ahead(), none);
    assert(before.ahead() + none =~= before.ahead());
}

/// What a walk is told of comes next, in the order in which it was told, and nothing
/// of what was ahead is lost.
pub proof fn law_what_is_told_comes_next(
    before: TreeWalk,
    entries: Seq<EntryView>,
    after: TreeWalk,
)
    requires
        is_told(before, entries, after),
    ensures
        entries.is_prefix_of(after.ahead()),
        before.ahead().is_suffix_of(after.ahead()),
        after.ahead().len() == entries.len() + before.ahead().len(),
        after.found == before.found,
        after.kind == before.kind,
{
    let now = after.ahead();
    assert(now.subrange(0, entries.len() as int) =~= entries);
    assert(now.subrange(now.len() - before.ahead().len(), now.len() as int) =~= before.ahead());
}

/// What is ahead is what is still to be seen, the last first.
pub proof fn law_the_last_comes_first(w: TreeWalk, i: int)
    requires
        0 <= i < w.todo@.len(),
    ensures
        w.ahead().len() == w.todo@.len(),
        w.ahead()[w.todo@.len() - 1 - i] == w.todo@[i].deep_view(),
{
}

} // verus!
