//! Walking a directory tree without touching the file system.
//!
//! A [`Walker`] decides; its caller reads. The walker names the directory
//! whose listing it wants next, the caller lists it and supplies the records,
//! and so on until the walker wants nothing more. The records then lie in the
//! order of the walk: a directory before what is below it, or after it where
//! the walk goes depth first.

use vstd::prelude::*;
use crate::errors::Error;
use crate::matcher::{views, File, FileView};

verus! {

/// An entry of a directory tree with what is below it.
pub struct Tree {
    pub record: FileView,
    /// The entries of the directory, in the order in which it lists them.
    pub children: Seq<Tree>,
}

/// The records of `nodes` themselves, in order.
pub open spec fn records(nodes: Seq<Tree>) -> Seq<FileView> {
    nodes.map_values(|n: Tree| n.record)
}

/// One level less of a depth limit.
pub open spec fn less(depth: Option<nat>) -> Option<nat> {
    match depth {
        Some(d) => Some(
            if d > 0 {
                (d - 1) as nat
            } else {
                0
            },
        ),
        None => None,
    }
}

/// The records of a walk through the directories `nodes` and all below them,
/// in order. `depth` limits how many levels are listed, this one included:
/// with no level left nothing is listed. A directory comes before what is
/// below it, or after it where `post` is set. No entries are sought below
/// what is not a directory.
pub open spec fn walk(nodes: Seq<Tree>, post: bool, depth: Option<nat>) -> Seq<FileView>
    decreases nodes,
{
    if nodes.len() == 0 || depth == Some(0nat) {
        Seq::empty()
    } else {
        let node = nodes[0];
        let below = if node.record.is_dir {
            walk(node.children, post, less(depth))
        } else {
            Seq::empty()
        };
        let mine = if post {
            below.push(node.record)
        } else {
            seq![node.record] + below
        };
        mine + walk(nodes.drop_first(), post, depth)
    }
}

/// How many entries lie in and below `nodes`.
pub open spec fn descendants(nodes: Seq<Tree>) -> nat
    decreases nodes,
{
    if nodes.len() == 0 {
        0
    } else {
        let below = if nodes[0].record.is_dir {
            descendants(nodes[0].children)
        } else {
            0
        };
        1 + below + descendants(nodes.drop_first())
    }
}

/// One thing that a walker still has to do.
pub enum Task {
    /// Take up an entry of a listing that was made with the given depth limit.
    Visit(FileView, Option<nat>),
    /// Give out the record of a directory whose entries are all done.
    Emit(FileView),
}

/// The directory that a walker wants listed.
pub struct Wanted {
    pub path: Seq<char>,
    /// How many levels may still be listed, this one included.
    pub depth: Option<nat>,
}

/// The state of a walker.
pub struct WalkView {
    /// Whether a directory comes after what is below it.
    pub post: bool,
    /// The records given out so far.
    pub out: Seq<FileView>,
    /// What is still to do, the next task first.
    pub agenda: Seq<Task>,
    pub wanted: Option<Wanted>,
    /// The error that ended the walk.
    pub failure: Option<Seq<char>>,
}

/// The tasks that a listing brings.
pub open spec fn visits(listing: Seq<FileView>, depth: Option<nat>) -> Seq<Task> {
    listing.map_values(|f: FileView| Task::Visit(f, depth))
}

/// Whether the walk goes into an entry of a listing made with limit `depth`.
pub open spec fn enters(f: FileView, depth: Option<nat>) -> bool {
    f.is_dir && less(depth) != Some(0nat)
}

/// Works the agenda off until a directory has to be listed or nothing is left.
pub open spec fn settle(post: bool, out: Seq<FileView>, agenda: Seq<Task>) -> WalkView
    decreases agenda.len(),
{
    if agenda.len() == 0 {
        WalkView { post, out, agenda, wanted: None, failure: None }
    } else {
        let rest = agenda.drop_first();
        match agenda[0] {
            Task::Emit(f) => settle(post, out.push(f), rest),
            Task::Visit(f, depth) => if enters(f, depth) {
                WalkView {
                    post,
                    out: if post {
                        out
                    } else {
                        out.push(f)
                    },
                    agenda: if post {
                        seq![Task::Emit(f)] + rest
                    } else {
                        rest
                    },
                    wanted: Some(Wanted { path: f.path, depth: less(depth) }),
                    failure: None,
                }
            } else {
                settle(post, out.push(f), rest)
            },
        }
    }
}

impl WalkView {
    /// A walk of the directory `root`, before anything was listed. With a
    /// depth limit of 0 it is over at once.
    pub open spec fn start(root: Seq<char>, post: bool, maxdepth: Option<nat>) -> WalkView {
        WalkView {
            post,
            out: Seq::empty(),
            agenda: Seq::empty(),
            wanted: if maxdepth == Some(0nat) {
                None
            } else {
                Some(Wanted { path: root, depth: maxdepth })
            },
            failure: None,
        }
    }

    /// Whether the walk is over.
    pub open spec fn done(self) -> bool {
        self.wanted is None
    }

    /// The state after the wanted directory was listed. A walk that is over
    /// stays as it is.
    pub open spec fn supply(self, listing: Seq<FileView>) -> WalkView {
        match self.wanted {
            Some(w) => settle(self.post, self.out, visits(listing, w.depth) + self.agenda),
            None => self,
        }
    }

    /// The state after the wanted directory could not be read: the walk is
    /// over, and `e` is what comes of it. A walk that is over stays as it is.
    pub open spec fn fail(self, e: Seq<char>) -> WalkView {
        match self.wanted {
            Some(_) => WalkView { wanted: None, failure: Some(e), ..self },
            None => self,
        }
    }

    /// The state after the wanted directory, whose entries are `children`, was
    /// listed, and after it every directory that the walker went on to want.
    pub open spec fn feed(self, children: Seq<Tree>) -> WalkView
        decreases children, 1nat,
    {
        match self.wanted {
            Some(w) => self.supply(records(children)).feed_each(children, w.depth),
            None => self,
        }
    }

    /// The state after every directory among `nodes` that the walk goes into
    /// was fed in its turn. `depth` is the limit that `nodes` were listed with.
    pub open spec fn feed_each(self, nodes: Seq<Tree>, depth: Option<nat>) -> WalkView
        decreases nodes, 0nat,
    {
        if nodes.len() == 0 {
            self
        } else {
            let next = if enters(nodes[0].record, depth) {
                self.feed(nodes[0].children)
            } else {
                self
            };
            next.feed_each(nodes.drop_first(), depth)
        }
    }
}

/// What a walk of `root` comes to where `children` is what the file system
/// holds below it and every listing succeeds.
pub open spec fn enumerate(
    root: Seq<char>,
    children: Seq<Tree>,
    post: bool,
    maxdepth: Option<nat>,
) -> WalkView {
    WalkView::start(root, post, maxdepth).feed(children)
}

/// Feeding a directory that the walker wants comes to the same as giving out
/// the whole walk below it at once and working the agenda on from there.
pub proof fn lemma_feed(w: WalkView, children: Seq<Tree>)
    requires
        w.wanted is Some,
        w.wanted->0.depth != Some(0nat),
    ensures
        w.feed(children) == settle(
            w.post,
            w.out + walk(children, w.post, w.wanted->0.depth),
            w.agenda,
        ),
    decreases children, 1nat,
{
    lemma_feed_each(w.post, w.out, w.agenda, children, w.wanted->0.depth);
}

/// Where the entries `nodes` stand first on the agenda, feeding each directory
/// among them that the walk goes into comes to the same as giving out the walk
/// through them at once.
pub proof fn lemma_feed_each(
    post: bool,
    out: Seq<FileView>,
    agenda: Seq<Task>,
    nodes: Seq<Tree>,
    depth: Option<nat>,
)
    requires
        depth != Some(0nat),
    ensures
        settle(post, out, visits(records(nodes), depth) + agenda).feed_each(nodes, depth)
            == settle(post, out + walk(nodes, post, depth), agenda),
    decreases nodes, 0nat,
{
    let before = visits(records(nodes), depth) + agenda;
    if nodes.len() == 0 {
        assert(before =~= agenda);
        assert(out + walk(nodes, post, depth) =~= out);
    } else {
        let node = nodes[0];
        let f = node.record;
        let rest = nodes.drop_first();
        let after = visits(records(rest), depth) + agenda;
        assert(before[0] == Task::Visit(f, depth));
        assert(before.drop_first() =~= after);
        let below = if f.is_dir {
            walk(node.children, post, less(depth))
        } else {
            Seq::empty()
        };
        let mine = if post {
            below.push(f)
        } else {
            seq![f] + below
        };
        assert(walk(nodes, post, depth) == mine + walk(rest, post, depth));
        let first = settle(post, out, before);
        let next = if enters(f, depth) {
            first.feed(node.children)
        } else {
            first
        };
        assert(next == settle(post, out + mine, after)) by {
            if enters(f, depth) {
                lemma_feed(first, node.children);
                if post {
                    let held = seq![Task::Emit(f)] + after;
                    assert(held[0] == Task::Emit(f));
                    assert(held.drop_first() =~= after);
                    assert((out + below).push(f) =~= out + mine);
                } else {
                    assert(out.push(f) + below =~= out + mine);
                }
            } else {
                assert(below =~= Seq::<FileView>::empty());
                assert(out.push(f) =~= out + mine);
            }
        }
        lemma_feed_each(post, out + mine, agenda, rest, depth);
        assert(out + mine + walk(rest, post, depth) =~= out + walk(nodes, post, depth));
    }
}

/// A walk in which every listing succeeds ends, without a failure, and has
/// then given out the records of the tree below the root in the order of the
/// walk: each entry once, the root itself never.
pub proof fn lemma_walker_gives_the_walk(
    root: Seq<char>,
    children: Seq<Tree>,
    post: bool,
    maxdepth: Option<nat>,
)
    ensures
        enumerate(root, children, post, maxdepth).done(),
        enumerate(root, children, post, maxdepth).failure is None,
        enumerate(root, children, post, maxdepth).out == walk(children, post, maxdepth),
{
    let w = WalkView::start(root, post, maxdepth);
    if maxdepth != Some(0nat) {
        lemma_feed(w, children);
        assert(w.out + walk(children, post, maxdepth) =~= walk(children, post, maxdepth));
    }
}

/// Without a depth limit a walk gives out as many records as there are
/// entries below the root.
pub proof fn lemma_walk_counts_descendants(nodes: Seq<Tree>, post: bool)
    ensures
        walk(nodes, post, None).len() == descendants(nodes),
    decreases nodes,
{
    if nodes.len() > 0 {
        if nodes[0].record.is_dir {
            lemma_walk_counts_descendants(nodes[0].children, post);
        }
        lemma_walk_counts_descendants(nodes.drop_first(), post);
    }
}

/// With a depth limit of 0 a walk gives out nothing, whatever lies below the
/// root, and wants no directory listed.
pub proof fn lemma_depth_zero_gives_nothing(root: Seq<char>, children: Seq<Tree>, post: bool)
    ensures
        WalkView::start(root, post, Some(0nat)).done(),
        enumerate(root, children, post, Some(0nat)).out == Seq::<FileView>::empty(),
        walk(children, post, Some(0nat)) == Seq::<FileView>::empty(),
{
}

/// A walk gives out exactly as many records as there are entries below its
/// root where no depth limit is set.
pub proof fn lemma_unlimited_walk_gives_every_entry(
    root: Seq<char>,
    children: Seq<Tree>,
    post: bool,
)
    ensures
        enumerate(root, children, post, None).out.len() == descendants(children),
{
    lemma_walker_gives_the_walk(root, children, post, None);
    lemma_walk_counts_descendants(children, post);
}

/// A depth limit as a number of levels.
pub open spec fn levels(depth: Option<u32>) -> Option<nat> {
    match depth {
        Some(d) => Some(d as nat),
        None => None,
    }
}

/// One thing that a walker still has to do.
enum Job {
    Visit(File, Option<u32>),
    Emit(File),
}

impl View for Job {
    type V = Task;

    closed spec fn view(&self) -> Task {
        match self {
            Job::Visit(f, depth) => Task::Visit(f@, levels(*depth)),
            Job::Emit(f) => Task::Emit(f@),
        }
    }
}

/// The tasks that a stack of jobs stands for: the job on top is the next task.
spec fn tasks(jobs: Seq<Job>) -> Seq<Task> {
    Seq::new(jobs.len(), |i: int| jobs[jobs.len() - 1 - i]@)
}

/// The job on top of the stack is the first task, and the rest follow it.
proof fn lemma_tasks_top(jobs: Seq<Job>)
    requires
        jobs.len() > 0,
    ensures
        tasks(jobs)[0] == jobs.last()@,
        tasks(jobs).drop_first() == tasks(jobs.drop_last()),
        tasks(jobs) == seq![jobs.last()@] + tasks(jobs.drop_last()),
{
    assert(tasks(jobs).drop_first() =~= tasks(jobs.drop_last()));
    assert(tasks(jobs) =~= seq![jobs.last()@] + tasks(jobs.drop_last()));
}

/// Where a walk stands.
enum Stage {
    /// A directory is to be listed, with the depth limit that holds for it.
    Wants(String, Option<u32>),
    Over,
    Failed(Error),
}

/// A walk of a directory tree, driven by the listings that its caller supplies.
pub struct Walker {
    post: bool,
    out: Vec<File>,
    agenda: Vec<Job>,
    stage: Stage,
}

impl View for Walker {
    type V = WalkView;

    closed spec fn view(&self) -> WalkView {
        WalkView {
            post: self.post,
            out: views(self.out@),
            agenda: tasks(self.agenda@),
            wanted: match self.stage {
                Stage::Wants(path, depth) => Some(Wanted { path: path@, depth: levels(depth) }),
                _ => None,
            },
            failure: match self.stage {
                Stage::Failed(e) => Some(e@),
                _ => None,
            },
        }
    }
}

impl Walker {
    /// Begins a walk of the directory `root`. With `depth` set a directory
    /// comes after what is below it, else before. `maxdepth` limits how many
    /// levels below the root are listed.
    pub fn new(root: String, depth: bool, maxdepth: Option<u32>) -> (w: Walker)
        ensures
            w@ == WalkView::start(root@, depth, levels(maxdepth)),
    {
        let limited: bool = match maxdepth {
            Some(d) => d == 0,
            None => false,
        };
        let stage = if limited {
            Stage::Over
        } else {
            Stage::Wants(root, maxdepth)
        };
        let w = Walker { post: depth, out: Vec::new(), agenda: Vec::new(), stage };
        assert(w@.out =~= Seq::<FileView>::empty());
        assert(w@.agenda =~= Seq::<Task>::empty());
        w
    }

    /// The directory that is to be listed next, or nothing where the walk is
    /// over.
    pub fn wanted(&self) -> (r: Option<&String>)
        ensures
            match r {
                Some(path) => self@.wanted is Some && path@ == self@.wanted->0.path,
                None => self@.done(),
            },
    {
        match &self.stage {
            Stage::Wants(path, _) => Some(path),
            _ => None,
        }
    }

    /// Takes in the listing of the wanted directory: its entries, in the order
    /// in which the directory gave them.
    pub fn supply(&mut self, listing: Vec<File>)
        ensures
            final(self)@ == old(self)@.supply(views(listing@)),
    {
        let depth: Option<u32> = match &self.stage {
            Stage::Wants(_, depth) => *depth,
            _ => {
                return ;
            },
        };
        self.stage = Stage::Over;
        let mut listing = listing;
        let ghost given = views(listing@);
        let ghost agenda = tasks(self.agenda@);
        assert(given.skip(given.len() as int) =~= Seq::<FileView>::empty());
        assert(visits(Seq::<FileView>::empty(), levels(depth)) + agenda =~= agenda);
        while listing.len() > 0
            invariant
                self.post == old(self).post,
                self.out == old(self).out,
                self.stage is Over,
                listing@.len() <= given.len(),
                views(listing@) == given.take(listing@.len() as int),
                tasks(self.agenda@) == visits(given.skip(listing@.len() as int), levels(depth))
                    + agenda,
            decreases listing@.len(),
        {
            let ghost before = listing@;
            let ghost jobs = self.agenda@;
            let f = listing.pop().unwrap();
            self.agenda.push(Job::Visit(f, depth));
            proof {
                let n = before.len() as int;
                assert(views(before)[n - 1] == f@);
                assert(given[n - 1] == f@);
                assert(views(listing@) =~= given.take(n - 1));
                lemma_tasks_top(self.agenda@);
                assert(self.agenda@.drop_last() =~= jobs);
                assert(tasks(self.agenda@) =~= visits(given.skip(n - 1), levels(depth)) + agenda);
            }
        }
        assert(given.skip(0) =~= given);
        self.settle();
    }

    /// Ends the walk with the error that kept the wanted directory from being
    /// listed. Nothing of the walk is then given out.
    pub fn fail(&mut self, e: Error)
        ensures
            final(self)@ == old(self)@.fail(e@),
    {
        if self.wanted().is_some() {
            self.stage = Stage::Failed(e);
        }
    }

    /// Whether the walk is over.
    pub fn done(&self) -> (r: bool)
        ensures
            r == self@.done(),
    {
        self.wanted().is_none()
    }

    /// What came of the walk: its records in the order of the walk, or the
    /// error that ended it.
    pub fn finish(self) -> (r: Result<Vec<File>, Error>)
        requires
            self@.done(),
        ensures
            match r {
                Ok(files) => self@.failure is None && views(files@) == self@.out,
                Err(e) => self@.failure == Some(e@),
            },
    {
        match self.stage {
            Stage::Failed(e) => Err(e),
            _ => Ok(self.out),
        }
    }

    /// Works the agenda off until a directory has to be listed or nothing is
    /// left.
    fn settle(&mut self)
        requires
            old(self).stage is Over,
        ensures
            final(self)@ == settle(old(self).post, views(old(self).out@), tasks(old(self).agenda@)),
    {
        let ghost goal = settle(self.post, views(self.out@), tasks(self.agenda@));
        loop
            invariant
                self.stage is Over,
                goal == settle(old(self).post, views(old(self).out@), tasks(old(self).agenda@)),
                goal == settle(self.post, views(self.out@), tasks(self.agenda@)),
            decreases self.agenda@.len(),
        {
            let ghost jobs = self.agenda@;
            let ghost out = self.out@;
            proof {
                if jobs.len() > 0 {
                    lemma_tasks_top(jobs);
                }
            }
            match self.agenda.pop() {
                None => {
                    assert(self@ == goal);
                    return ;
                },
                Some(Job::Emit(f)) => {
                    self.out.push(f);
                    assert(views(self.out@) =~= views(out).push(f@));
                },
                Some(Job::Visit(f, depth)) => {
                    let below: Option<u32> = match depth {
                        Some(d) => Some(if d > 0 {
                            d - 1
                        } else {
                            0
                        }),
                        None => None,
                    };
                    let open: bool = match below {
                        Some(d) => d != 0,
                        None => true,
                    };
                    assert(levels(below) == less(levels(depth)));
                    if f.is_dir() && open {
                        let path = f.path().clone();
                        if self.post {
                            self.agenda.push(Job::Emit(f));
                            proof {
                                lemma_tasks_top(self.agenda@);
                                assert(self.agenda@.drop_last() =~= jobs.drop_last());
                            }
                        } else {
                            self.out.push(f);
                            assert(views(self.out@) =~= views(out).push(f@));
                        }
                        self.stage = Stage::Wants(path, below);
                        assert(self@ == goal);
                        return ;
                    } else {
                        self.out.push(f);
                        assert(views(self.out@) =~= views(out).push(f@));
                    }
                },
            }
        }
    }
}

} // verus!
