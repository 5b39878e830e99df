//! The target of an install: the steps that change it, what each step can answer, and a
//! target kept in memory that gives the steps their meaning.

use crate::archive::{MemberView, StagingArea};
use crate::table::PathTable;
use vstd::prelude::*;

verus! {

/// Permission bits of a file that a step creates.
pub const NEW_FILE_MODE: u32 = 0o644;

/// Permission bits of a directory that a step creates.
pub const NEW_DIR_MODE: u32 = 0o755;

/// Why a step failed.
#[derive(Clone, Copy, Debug, PartialEq, Eq, Structural)]
pub enum IoCause {
    /// The content does not fit into the space that is left.
    NoSpace,
    /// A file was to be written where a directory stands.
    IsADirectory,
    /// A directory was to be made where a file stands.
    NotADirectory,
    /// The path, or the staged content for it, is not there.
    NotFound,
    /// The operating environment refused.
    Denied,
    /// Any other failure.
    Other,
}

/// What the target answered to a step.
#[derive(Clone, Copy, Debug, PartialEq, Eq, Structural)]
pub enum Outcome {
    /// The step was carried out.
    Done,
    /// There was nothing to do: the directory was there already.
    Present,
    /// The step failed and left the target as it was.
    Failed(IoCause),
}

/// One change to the target. Paths are relative to the target root.
#[derive(Clone, Debug, PartialEq, Eq)]
pub enum Step {
    /// Make the directory unless it is there.
    EnsureDir { path: Vec<u8> },
    /// Copy the content staged under `path` to `path`.
    WriteFile { path: Vec<u8> },
    /// Give `path` its permission bits, owner and group.
    SetMeta { path: Vec<u8>, mode: u32, uid: u32, gid: u32 },
    /// Remove what stands at `path`.
    Remove { path: Vec<u8> },
}

/// The view of a [`Step`].
pub enum StepView {
    EnsureDir { path: Seq<u8> },
    WriteFile { path: Seq<u8> },
    SetMeta { path: Seq<u8>, mode: u32, uid: u32, gid: u32 },
    Remove { path: Seq<u8> },
}

impl View for Step {
    type V = StepView;

    open spec fn view(&self) -> StepView {
        match self {
            Step::EnsureDir { path } => StepView::EnsureDir { path: path@ },
            Step::WriteFile { path } => StepView::WriteFile { path: path@ },
            Step::SetMeta { path, mode, uid, gid } => StepView::SetMeta {
                path: path@,
                mode: *mode,
                uid: *uid,
                gid: *gid,
            },
            Step::Remove { path } => StepView::Remove { path: path@ },
        }
    }
}

impl Step {
    /// A copy of the step.
    pub fn duplicate(&self) -> (r: Step)
        ensures
            r@ == self@,
    {
        match self {
            Step::EnsureDir { path } => Step::EnsureDir { path: path.clone() },
            Step::WriteFile { path } => Step::WriteFile { path: path.clone() },
            Step::SetMeta { path, mode, uid, gid } => Step::SetMeta {
                path: path.clone(),
                mode: *mode,
                uid: *uid,
                gid: *gid,
            },
            Step::Remove { path } => Step::Remove { path: path.clone() },
        }
    }

    /// The path that the step works on.
    pub fn path(&self) -> (r: &Vec<u8>)
        ensures
            r@ == step_path(self@),
    {
        match self {
            Step::EnsureDir { path } => path,
            Step::WriteFile { path } => path,
            Step::SetMeta { path, .. } => path,
            Step::Remove { path } => path,
        }
    }
}

/// The path that a step works on.
pub open spec fn step_path(step: StepView) -> Seq<u8> {
    match step {
        StepView::EnsureDir { path } => path,
        StepView::WriteFile { path } => path,
        StepView::SetMeta { path, .. } => path,
        StepView::Remove { path } => path,
    }
}

/// The views of a sequence of steps.
pub open spec fn steps_view(steps: Seq<Step>) -> Seq<StepView> {
    steps.map_values(|s: Step| s@)
}

/// What stands at one path of a target.
#[derive(Clone, Debug, PartialEq, Eq)]
pub struct Node {
    pub is_dir: bool,
    pub content: Vec<u8>,
    pub mode: u32,
    pub uid: u32,
    pub gid: u32,
}

/// The view of a [`Node`].
pub struct NodeView {
    pub is_dir: bool,
    pub content: Seq<u8>,
    pub mode: u32,
    pub uid: u32,
    pub gid: u32,
}

impl View for Node {
    type V = NodeView;

    open spec fn view(&self) -> NodeView {
        NodeView {
            is_dir: self.is_dir,
            content: self.content@,
            mode: self.mode,
            uid: self.uid,
            gid: self.gid,
        }
    }
}

/// A target as the contracts see it: what stands at each path, and how many bytes of
/// content it can still take.
pub struct FsView {
    pub nodes: Map<Seq<u8>, NodeView>,
    pub free: u64,
}

/// A directory as a step makes it.
pub open spec fn new_dir() -> NodeView {
    NodeView { is_dir: true, content: Seq::empty(), mode: NEW_DIR_MODE, uid: 0, gid: 0 }
}

/// The file that stands at a path after `content` was written there: it keeps the
/// permission bits and owners of a file that it replaces.
pub open spec fn written(fs: FsView, path: Seq<u8>, content: Seq<u8>) -> NodeView {
    if fs.nodes.contains_key(path) {
        NodeView { content, ..fs.nodes[path] }
    } else {
        NodeView { is_dir: false, content, mode: NEW_FILE_MODE, uid: 0, gid: 0 }
    }
}

/// The bytes of content that stand at a path.
pub open spec fn held(fs: FsView, path: Seq<u8>) -> nat {
    if fs.nodes.contains_key(path) {
        fs.nodes[path].content.len()
    } else {
        0
    }
}

/// A count of free bytes, which never exceeds what sixty-four bits hold.
pub open spec fn capped(n: int) -> u64 {
    if n > u64::MAX {
        u64::MAX
    } else {
        n as u64
    }
}

/// What one step does to a target, and what the target answers. A failed step leaves the
/// target as it was.
pub open spec fn fs_step(fs: FsView, step: StepView, staging: Map<Seq<u8>, MemberView>) -> (
    FsView,
    Outcome,
) {
    match step {
        StepView::EnsureDir { path } => if fs.nodes.contains_key(path) {
            if fs.nodes[path].is_dir {
                (fs, Outcome::Present)
            } else {
                (fs, Outcome::Failed(IoCause::NotADirectory))
            }
        } else {
            (FsView { nodes: fs.nodes.insert(path, new_dir()), ..fs }, Outcome::Done)
        },
        StepView::WriteFile { path } => if !staging.contains_key(path) {
            (fs, Outcome::Failed(IoCause::NotFound))
        } else if fs.nodes.contains_key(path) && fs.nodes[path].is_dir {
            (fs, Outcome::Failed(IoCause::IsADirectory))
        } else if staging[path].content.len() > fs.free + held(fs, path) {
            (fs, Outcome::Failed(IoCause::NoSpace))
        } else {
            (
                FsView {
                    nodes: fs.nodes.insert(path, written(fs, path, staging[path].content)),
                    free: capped(fs.free + held(fs, path) - staging[path].content.len()),
                },
                Outcome::Done,
            )
        },
        StepView::SetMeta { path, mode, uid, gid } => if fs.nodes.contains_key(path) {
            (
                FsView {
                    nodes: fs.nodes.insert(path, NodeView { mode, uid, gid, ..fs.nodes[path] }),
                    ..fs
                },
                Outcome::Done,
            )
        } else {
            (fs, Outcome::Failed(IoCause::NotFound))
        },
        StepView::Remove { path } => if fs.nodes.contains_key(path) {
            (
                FsView {
                    nodes: fs.nodes.remove(path),
                    free: capped((fs.free + held(fs, path)) as int),
                },
                Outcome::Done,
            )
        } else {
            (fs, Outcome::Present)
        },
    }
}

/// A target kept in memory.
pub struct TargetFs {
    table: PathTable<Node>,
    free: u64,
}

impl View for TargetFs {
    type V = FsView;

    closed spec fn view(&self) -> FsView {
        fs_of(self.table, self.free)
    }
}

/// The target that a table of nodes and a count of free bytes make.
spec fn fs_of(table: PathTable<Node>, free: u64) -> FsView {
    FsView { nodes: table.map().map_values(|n: Node| n@), free }
}

fn copy_of(bytes: &Vec<u8>) -> (r: Vec<u8>)
    ensures
        r@ == bytes@,
{
    bytes.clone()
}

impl TargetFs {
    #[verifier::type_invariant]
    spec fn well_formed(&self) -> bool {
        self.table.wf()
    }

    /// An empty target with room for `free` bytes of content.
    pub fn new(free: u64) -> (t: TargetFs)
        ensures
            t@ == (FsView { nodes: Map::empty(), free }),
    {
        let t = TargetFs { table: PathTable::new(), free };
        assert(t@.nodes =~= Map::empty());
        t
    }

    /// Whether anything stands at `path`.
    pub fn contains(&self, path: &[u8]) -> (r: bool)
        ensures
            r == self@.nodes.contains_key(path@),
    {
        proof {
            use_type_invariant(self);
        }
        self.table.contains(path)
    }

    /// What stands at `path`, if anything does.
    pub fn get(&self, path: &[u8]) -> (r: Option<&Node>)
        ensures
            match r {
                Some(n) => self@.nodes.contains_key(path@) && n@ == self@.nodes[path@],
                None => !self@.nodes.contains_key(path@),
            },
    {
        proof {
            use_type_invariant(self);
        }
        self.table.get(path)
    }

    /// The number of bytes of content that the target can still take.
    pub fn free(&self) -> (r: u64)
        ensures
            r == self@.free,
    {
        self.free
    }

    /// The number of paths at which something stands.
    pub fn len(&self) -> (n: usize)
        ensures
            n == self@.nodes.dom().len(),
            self@.nodes.dom().finite(),
    {
        proof {
            use_type_invariant(self);
            self.table.lemma_domain();
            assert(self@.nodes.dom() =~= self.table.map().dom());
        }
        self.table.len()
    }

    /// Puts `node` at `path`, in place of what stood there; for setting a target up.
    pub fn put(&mut self, path: Vec<u8>, node: Node)
        ensures
            final(self)@ == (FsView {
                nodes: old(self)@.nodes.insert(path@, node@),
                free: old(self)@.free,
            }),
    {
        proof {
            use_type_invariant(&*self);
        }
        let mut table = PathTable::new();
        core::mem::swap(&mut table, &mut self.table);
        let ghost before = table.map();
        table.insert(path, node);
        proof {
            assert(table.map().map_values(|n: Node| n@) =~= before.map_values(|n: Node| n@).insert(
                path@,
                node@,
            ));
        }
        self.table = table;
    }

    /// Carries out one step: see [`fs_step`].
    pub fn perform(&mut self, step: &Step, staging: &StagingArea) -> (r: Outcome)
        ensures
            (final(self)@, r) == fs_step(old(self)@, step@, staging@),
    {
        proof {
            use_type_invariant(&*self);
        }
        let mut table = PathTable::new();
        core::mem::swap(&mut table, &mut self.table);
        let mut free = self.free;
        let r = apply_step(&mut table, &mut free, step, staging);
        self.table = table;
        self.free = free;
        r
    }
}

fn apply_step(table: &mut PathTable<Node>, free: &mut u64, step: &Step, staging: &StagingArea) -> (r:
    Outcome)
    requires
        old(table).wf(),
    ensures
        final(table).wf(),
        (fs_of(*final(table), *final(free)), r) == fs_step(
            fs_of(*old(table), *old(free)),
            step@,
            staging@,
        ),
{
    let ghost before = table.map();
    let ghost fs = fs_of(*table, *free);
    match step {
        Step::EnsureDir { path } => {
            match table.get(path.as_slice()) {
                Some(node) => if node.is_dir {
                    Outcome::Present
                } else {
                    Outcome::Failed(IoCause::NotADirectory)
                },
                None => {
                    let node = Node {
                        is_dir: true,
                        content: Vec::new(),
                        mode: NEW_DIR_MODE,
                        uid: 0,
                        gid: 0,
                    };
                    table.insert(copy_of(path), node);
                    proof {
                        assert(table.map().map_values(|n: Node| n@) =~= before.map_values(
                            |n: Node| n@,
                        ).insert(path@, new_dir()));
                    }
                    Outcome::Done
                },
            }
        },
        Step::WriteFile { path } => {
            let source = match staging.get(path.as_slice()) {
                None => {
                    return Outcome::Failed(IoCause::NotFound);
                },
                Some(member) => member,
            };
            let (held, mode, uid, gid) = match table.get(path.as_slice()) {
                Some(node) => {
                    if node.is_dir {
                        return Outcome::Failed(IoCause::IsADirectory);
                    }
                    (node.content.len(), node.mode, node.uid, node.gid)
                },
                None => (0, NEW_FILE_MODE, 0, 0),
            };
            assert(held == crate::target::held(fs, path@));
            let room: u128 = *free as u128 + held as u128;
            if source.content.len() as u128 > room {
                return Outcome::Failed(IoCause::NoSpace);
            }
            let left: u128 = room - source.content.len() as u128;
            let node = Node { is_dir: false, content: copy_of(&source.content), mode, uid, gid };
            assert(node@ == written(fs, path@, staging@[path@].content));
            table.insert(copy_of(path), node);
            *free = if left > u64::MAX as u128 {
                u64::MAX
            } else {
                left as u64
            };
            proof {
                assert(table.map().map_values(|n: Node| n@) =~= before.map_values(
                    |n: Node| n@,
                ).insert(path@, node@));
            }
            Outcome::Done
        },
        Step::SetMeta { path, mode, uid, gid } => {
            match table.remove(path.as_slice()) {
                None => {
                    proof {
                        assert(table.map() =~= before);
                    }
                    Outcome::Failed(IoCause::NotFound)
                },
                Some(node) => {
                    let Node { is_dir, content, .. } = node;
                    let changed = Node { is_dir, content, mode: *mode, uid: *uid, gid: *gid };
                    table.insert(copy_of(path), changed);
                    proof {
                        assert(table.map().map_values(|n: Node| n@) =~= before.map_values(
                            |n: Node| n@,
                        ).insert(path@, changed@));
                    }
                    Outcome::Done
                },
            }
        },
        Step::Remove { path } => {
            match table.remove(path.as_slice()) {
                None => {
                    proof {
                        assert(table.map() =~= before);
                    }
                    Outcome::Present
                },
                Some(node) => {
                    let room: u128 = *free as u128 + node.content.len() as u128;
                    *free = if room > u64::MAX as u128 {
                        u64::MAX
                    } else {
                        room as u64
                    };
                    proof {
                        assert(table.map().map_values(|n: Node| n@) =~= before.map_values(
                            |n: Node| n@,
                        ).remove(path@));
                    }
                    Outcome::Done
                },
            }
        },
    }
}

} // verus!
