use crate::names::{clone_names, texts};
use vstd::prelude::*;

verus! {

/// What stands at one name in the source tree.
#[derive(Debug, PartialEq, Eq)]
pub enum SourceNode {
    /// Anything that is not a directory; it is copied as a file. A symbolic link
    /// counts as what it leads to.
    File,
    /// A directory and what it holds, in listing order.
    Directory(Vec<SourceEntry>),
}

/// One entry of a directory of the source tree.
#[derive(Debug, PartialEq, Eq)]
pub struct SourceEntry {
    pub name: String,
    pub node: SourceNode,
}

/// One action of a mirror run. A path is a list of names, outermost first, read
/// below the source root and below the destination root alike; the empty path is
/// the root itself.
#[derive(Debug, PartialEq, Eq)]
pub enum CopyStep {
    /// Create the directory at this path below the destination, with any
    /// missing directory above it.
    CreateDir(Vec<String>),
    /// Copy the file at this path below the source to the same path below the
    /// destination, replacing what is there.
    CopyFile(Vec<String>),
}

/// A step with its path as plain text.
pub enum CopyStepView {
    CreateDir(Seq<Seq<char>>),
    CopyFile(Seq<Seq<char>>),
}

impl View for CopyStep {
    type V = CopyStepView;

    open spec fn view(&self) -> CopyStepView {
        match self {
            CopyStep::CreateDir(path) => CopyStepView::CreateDir(texts(path@)),
            CopyStep::CopyFile(path) => CopyStepView::CopyFile(texts(path@)),
        }
    }
}

/// The steps of a plan as plain text, in order.
pub open spec fn step_views(steps: Seq<CopyStep>) -> Seq<CopyStepView> {
    steps.map_values(|step: CopyStep| step@)
}

/// The steps that mirror the directory at path `at` holding `entries`: create
/// the directory, then take each entry in order, descending into a
/// subdirectory as soon as it is met.
pub open spec fn mirror_steps(entries: Seq<SourceEntry>, at: Seq<Seq<char>>) -> Seq<CopyStepView>
    decreases entries, 1nat,
{
    seq![CopyStepView::CreateDir(at)] + entries_steps(entries, at)
}

/// The steps for the entries of the directory at path `at`, in order.
pub open spec fn entries_steps(entries: Seq<SourceEntry>, at: Seq<Seq<char>>) -> Seq<CopyStepView>
    decreases entries, 0nat,
{
    if entries.len() == 0 {
        Seq::empty()
    } else {
        entries_steps(entries.drop_last(), at) + entry_steps(entries.last(), at)
    }
}

/// The steps for one entry of the directory at path `at`.
pub open spec fn entry_steps(entry: SourceEntry, at: Seq<Seq<char>>) -> Seq<CopyStepView>
    decreases entry, 0nat,
{
    let path = at.push(entry.name@);
    match entry.node {
        SourceNode::File => seq![CopyStepView::CopyFile(path)],
        SourceNode::Directory(children) => mirror_steps(children@, path),
    }
}

/// The step that deals with what stands at `path`: a directory is created, a
/// file is copied.
pub open spec fn step_for(path: Seq<Seq<char>>, dir: bool) -> CopyStepView {
    if dir {
        CopyStepView::CreateDir(path)
    } else {
        CopyStepView::CopyFile(path)
    }
}

/// The path a step acts on.
pub open spec fn step_path(step: CopyStepView) -> Seq<Seq<char>> {
    match step {
        CopyStepView::CreateDir(path) => path,
        CopyStepView::CopyFile(path) => path,
    }
}

/// Whether `entry`, or something below it, stands at `path` and is a directory
/// (`dir`) or a file (`!dir`). The path is read from the directory that holds
/// the entry, so it begins with the entry's own name.
pub open spec fn entry_holds(entry: SourceEntry, path: Seq<Seq<char>>, dir: bool) -> bool
    decreases path.len(), 0nat,
{
    &&& path.len() > 0
    &&& entry.name@ == path[0]
    &&& match entry.node {
        SourceNode::File => path.len() == 1 && !dir,
        SourceNode::Directory(children) => (path.len() == 1 && dir) || tree_holds(
            children@,
            path.drop_first(),
            dir,
        ),
    }
}

/// Whether the tree of the directory holding `entries` has a directory (`dir`)
/// or a file (`!dir`) at `path`, read from that directory.
pub open spec fn tree_holds(entries: Seq<SourceEntry>, path: Seq<Seq<char>>, dir: bool) -> bool
    decreases path.len(), 1nat,
{
    exists|i: int| 0 <= i < entries.len() && entry_holds(#[trigger] entries[i], path, dir)
}

/// Whether `path` leads strictly below the directory at `at`.
pub open spec fn strictly_below(at: Seq<Seq<char>>, path: Seq<Seq<char>>) -> bool {
    path.len() > at.len() && path.take(at.len() as int) == at
}

proof fn lemma_contains_in_either<A>(a: Seq<A>, b: Seq<A>, x: A)
    ensures
        (a + b).contains(x) <==> a.contains(x) || b.contains(x),
{
    if a.contains(x) {
        let i = choose|i: int| 0 <= i < a.len() && a[i] == x;
        assert((a + b)[i] == x);
    }
    if b.contains(x) {
        let i = choose|i: int| 0 <= i < b.len() && b[i] == x;
        assert((a + b)[a.len() + i] == x);
    }
    if (a + b).contains(x) {
        let i = choose|i: int| 0 <= i < (a + b).len() && (a + b)[i] == x;
        if i < a.len() {
            assert(a[i] == x);
        } else {
            assert(b[i - a.len()] == x);
        }
    }
}

proof fn lemma_entries_steps_stay_below(
    entries: Seq<SourceEntry>,
    at: Seq<Seq<char>>,
    step: CopyStepView,
)
    requires
        entries_steps(entries, at).contains(step),
    ensures
        strictly_below(at, step_path(step)),
    decreases entries, 0nat,
{
    if entries.len() > 0 {
        lemma_contains_in_either(
            entries_steps(entries.drop_last(), at),
            entry_steps(entries.last(), at),
            step,
        );
        if entries_steps(entries.drop_last(), at).contains(step) {
            lemma_entries_steps_stay_below(entries.drop_last(), at, step);
        } else {
            lemma_entry_steps_stay_below(entries.last(), at, step);
        }
    }
}

proof fn lemma_entry_steps_stay_below(entry: SourceEntry, at: Seq<Seq<char>>, step: CopyStepView)
    requires
        entry_steps(entry, at).contains(step),
    ensures
        strictly_below(at, step_path(step)),
        step_path(step)[at.len() as int] == entry.name@,
    decreases entry, 0nat,
{
    let path = at.push(entry.name@);
    assert(path.take(at.len() as int) =~= at);
    match entry.node {
        SourceNode::File => {},
        SourceNode::Directory(children) => {
            lemma_contains_in_either(
                seq![CopyStepView::CreateDir(path)],
                entries_steps(children@, path),
                step,
            );
            if entries_steps(children@, path).contains(step) {
                lemma_entries_steps_stay_below(children@, path, step);
                let reached = step_path(step);
                assert(reached.take(path.len() as int)[at.len() as int] == entry.name@);
                assert(reached.take(at.len() as int) =~= path.take(at.len() as int));
            }
        },
    }
}

proof fn lemma_entry_steps_reach(
    entry: SourceEntry,
    at: Seq<Seq<char>>,
    path: Seq<Seq<char>>,
    dir: bool,
)
    ensures
        entry_steps(entry, at).contains(step_for(at + path, dir)) <==> entry_holds(
            entry,
            path,
            dir,
        ),
    decreases entry, 0nat,
{
    let here = at.push(entry.name@);
    let step = step_for(at + path, dir);
    let named = path.len() > 0 && path[0] == entry.name@;
    if named {
        assert(at + path =~= here + path.drop_first());
    }
    if here == at + path {
        assert(path.len() == 1);
        assert((at + path)[at.len() as int] == entry.name@);
    }
    if path.len() == 1 && named {
        assert(here =~= at + path);
    }
    match entry.node {
        SourceNode::File => {
            let only = seq![CopyStepView::CopyFile(here)];
            assert(only.contains(step) <==> only[0] == step);
        },
        SourceNode::Directory(children) => {
            let first = seq![CopyStepView::CreateDir(here)];
            assert(first.contains(step) <==> first[0] == step);
            lemma_contains_in_either(first, entries_steps(children@, here), step);
            if named {
                lemma_entries_steps_reach(children@, here, path.drop_first(), dir);
            } else if entries_steps(children@, here).contains(step) {
                lemma_entries_steps_stay_below(children@, here, step);
                assert((at + path).take(here.len() as int)[at.len() as int] == entry.name@);
            }
        },
    }
}

proof fn lemma_entries_steps_reach(
    entries: Seq<SourceEntry>,
    at: Seq<Seq<char>>,
    path: Seq<Seq<char>>,
    dir: bool,
)
    ensures
        entries_steps(entries, at).contains(step_for(at + path, dir)) <==> tree_holds(
            entries,
            path,
            dir,
        ),
    decreases entries, 1nat,
{
    let step = step_for(at + path, dir);
    if entries.len() > 0 {
        let earlier = entries.drop_last();
        let last = entries.last();
        lemma_contains_in_either(entries_steps(earlier, at), entry_steps(last, at), step);
        lemma_entries_steps_reach(earlier, at, path, dir);
        lemma_entry_steps_reach(last, at, path, dir);
        if tree_holds(earlier, path, dir) {
            let i = choose|i: int| 0 <= i < earlier.len() && entry_holds(earlier[i], path, dir);
            assert(entries[i] == earlier[i]);
        }
        if tree_holds(entries, path, dir) {
            let i = choose|i: int| 0 <= i < entries.len() && entry_holds(entries[i], path, dir);
            if i < entries.len() - 1 {
                assert(earlier[i] == entries[i]);
            }
        }
    }
}

/// A mirror run deals with the whole source tree and with nothing else: it
/// creates a directory at a path exactly where the path is the root or the tree
/// has a directory there, and it copies a file to a path exactly where the tree
/// has a file there. Paths are read from the directory at `at`.
pub proof fn lemma_mirror_reaches_whole_tree(
    entries: Seq<SourceEntry>,
    at: Seq<Seq<char>>,
    path: Seq<Seq<char>>,
    dir: bool,
)
    ensures
        mirror_steps(entries, at).contains(step_for(at + path, dir)) <==> (dir && path.len() == 0)
            || tree_holds(entries, path, dir),
{
    let step = step_for(at + path, dir);
    let first = seq![CopyStepView::CreateDir(at)];
    assert(first.contains(step) <==> first[0] == step);
    lemma_contains_in_either(first, entries_steps(entries, at), step);
    lemma_entries_steps_reach(entries, at, path, dir);
    if path.len() == 0 {
        assert(at + path =~= at);
    }
    if at == at + path {
        assert(path.len() == 0);
    }
}

/// Every step of a mirror run acts at the directory being mirrored or below it.
pub proof fn lemma_mirror_stays_below(
    entries: Seq<SourceEntry>,
    at: Seq<Seq<char>>,
    step: CopyStepView,
)
    requires
        mirror_steps(entries, at).contains(step),
    ensures
        at.is_prefix_of(step_path(step)),
{
    let first = seq![CopyStepView::CreateDir(at)];
    assert(first.contains(step) <==> first[0] == step);
    lemma_contains_in_either(first, entries_steps(entries, at), step);
    if entries_steps(entries, at).contains(step) {
        lemma_entries_steps_stay_below(entries, at, step);
    }
}

/// The directory that holds what a step acts on.
pub open spec fn step_parent(step: CopyStepView) -> Seq<Seq<char>> {
    step_path(step).drop_last()
}

/// Whether one of the steps before the `k`-th creates the directory `dir`.
pub open spec fn created_before(steps: Seq<CopyStepView>, k: int, dir: Seq<Seq<char>>) -> bool {
    exists|j: int| 0 <= j < k && #[trigger] steps[j] == CopyStepView::CreateDir(dir)
}

/// Whether each step finds its directory in place: it acts directly in the
/// directory at `at`, or an earlier step has created the directory it acts in.
pub open spec fn parents_come_first(steps: Seq<CopyStepView>, at: Seq<Seq<char>>) -> bool {
    forall|k: int|
        0 <= k < steps.len() ==> step_parent(#[trigger] steps[k]) == at || created_before(
            steps,
            k,
            step_parent(steps[k]),
        )
}

proof fn lemma_entries_steps_in_order(entries: Seq<SourceEntry>, at: Seq<Seq<char>>)
    ensures
        parents_come_first(entries_steps(entries, at), at),
    decreases entries, 1nat,
{
    if entries.len() > 0 {
        let head = entries_steps(entries.drop_last(), at);
        let tail = entry_steps(entries.last(), at);
        let all = entries_steps(entries, at);
        lemma_entries_steps_in_order(entries.drop_last(), at);
        lemma_entry_steps_in_order(entries.last(), at);
        assert forall|k: int| 0 <= k < all.len() implies step_parent(#[trigger] all[k]) == at
            || created_before(all, k, step_parent(all[k])) by {
            let parent = step_parent(all[k]);
            if k < head.len() {
                assert(all[k] == head[k]);
                if parent != at {
                    let j = choose|j: int|
                        0 <= j < k && #[trigger] head[j] == CopyStepView::CreateDir(parent);
                    assert(all[j] == CopyStepView::CreateDir(parent));
                }
            } else {
                assert(all[k] == tail[k - head.len()]);
                if parent != at {
                    let j = choose|j: int|
                        0 <= j < k - head.len() && #[trigger] tail[j] == CopyStepView::CreateDir(
                            parent,
                        );
                    assert(all[head.len() + j] == CopyStepView::CreateDir(parent));
                }
            }
        }
    }
}

proof fn lemma_entry_steps_in_order(entry: SourceEntry, at: Seq<Seq<char>>)
    ensures
        parents_come_first(entry_steps(entry, at), at),
    decreases entry, 0nat,
{
    let here = at.push(entry.name@);
    assert(here.drop_last() =~= at);
    match entry.node {
        SourceNode::File => {},
        SourceNode::Directory(children) => {
            let below = entries_steps(children@, here);
            let all = entry_steps(entry, at);
            lemma_entries_steps_in_order(children@, here);
            assert forall|k: int| 0 <= k < all.len() implies step_parent(#[trigger] all[k]) == at
                || created_before(all, k, step_parent(all[k])) by {
                let parent = step_parent(all[k]);
                if k > 0 {
                    assert(all[k] == below[k - 1]);
                    if parent == here {
                        assert(all[0] == CopyStepView::CreateDir(parent));
                    } else {
                        let j = choose|j: int|
                            0 <= j < k - 1 && #[trigger] below[j] == CopyStepView::CreateDir(
                                parent,
                            );
                        assert(all[j + 1] == CopyStepView::CreateDir(parent));
                    }
                }
            }
        },
    }
}

/// A mirror run can be carried out in the order given: its first step creates
/// the directory being mirrored, and every later step acts in a directory that
/// an earlier step has created.
pub proof fn lemma_mirror_creates_parents_first(entries: Seq<SourceEntry>, at: Seq<Seq<char>>)
    ensures
        mirror_steps(entries, at)[0] == CopyStepView::CreateDir(at),
        forall|k: int|
            0 < k < mirror_steps(entries, at).len() ==> created_before(
                mirror_steps(entries, at),
                k,
                step_parent(#[trigger] mirror_steps(entries, at)[k]),
            ),
{
    let all = mirror_steps(entries, at);
    let below = entries_steps(entries, at);
    lemma_entries_steps_in_order(entries, at);
    assert forall|k: int| 0 < k < all.len() implies created_before(
        all,
        k,
        step_parent(#[trigger] all[k]),
    ) by {
        let parent = step_parent(all[k]);
        assert(all[k] == below[k - 1]);
        if parent == at {
            assert(all[0] == CopyStepView::CreateDir(parent));
        } else {
            let j = choose|j: int|
                0 <= j < k - 1 && #[trigger] below[j] == CopyStepView::CreateDir(parent);
            assert(all[j + 1] == CopyStepView::CreateDir(parent));
        }
    }
}

fn mirror_into(entries: &Vec<SourceEntry>, at: &Vec<String>, steps: &mut Vec<CopyStep>)
    ensures
        step_views(final(steps)@) == step_views(old(steps)@) + mirror_steps(entries@, texts(at@)),
    decreases entries,
{
    let ghost before = step_views(steps@);
    let ghost here = texts(at@);
    steps.push(CopyStep::CreateDir(clone_names(at)));
    proof {
        assert(entries@.take(0) =~= Seq::<SourceEntry>::empty());
        assert(step_views(steps@) =~= before + seq![CopyStepView::CreateDir(here)]
            + entries_steps(entries@.take(0), here));
    }
    let mut i: usize = 0;
    while i < entries.len()
        invariant
            i <= entries.len(),
            here == texts(at@),
            step_views(steps@) == before + seq![CopyStepView::CreateDir(here)] + entries_steps(
                entries@.take(i as int),
                here,
            ),
        decreases entries.len() - i,
    {
        let entry = &entries[i];
        let mut path = clone_names(at);
        path.push(entry.name.clone());
        let ghost sofar = step_views(steps@);
        proof {
            assert(texts(path@) =~= here.push(entry.name@));
            assert(entries@.take(i as int + 1).drop_last() =~= entries@.take(i as int));
            assert(entries@.take(i as int + 1).last() == entries@[i as int]);
        }
        match &entry.node {
            SourceNode::File => {
                steps.push(CopyStep::CopyFile(path));
                proof {
                    assert(step_views(steps@) =~= sofar + entry_steps(*entry, here));
                }
            },
            SourceNode::Directory(children) => {
                mirror_into(children, &path, steps);
            },
        }
        proof {
            assert(step_views(steps@) =~= before + seq![CopyStepView::CreateDir(here)]
                + entries_steps(entries@.take(i as int + 1), here));
        }
        i = i + 1;
    }
    proof {
        assert(entries@.take(i as int) =~= entries@);
    }
}

/// The Directory Mirror as a plan: given the entries of the source directory,
/// the steps that reproduce its tree below a destination, in the order in which
/// they are to be carried out.
pub fn copy_dir_all(source: &Vec<SourceEntry>) -> (steps: Vec<CopyStep>)
    ensures
        step_views(steps@) == mirror_steps(source@, Seq::empty()),
{
    let mut steps: Vec<CopyStep> = Vec::new();
    let root: Vec<String> = Vec::new();
    mirror_into(source, &root, &mut steps);
    proof {
        assert(texts(root@) =~= Seq::<Seq<char>>::empty());
        assert(step_views(Seq::<CopyStep>::empty()) =~= Seq::<CopyStepView>::empty());
    }
    steps
}

} // verus!
