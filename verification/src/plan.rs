//! The install plan: a tag for each declared item, and the steps that carry the plan out.

use crate::integrity::{VerificationResult, Verdict};
use crate::parser::{declares_directory, mode_of, path_of, File, FileView, Files};
use crate::search::{first_where, lemma_first_where_is};
use crate::target::{Step, StepView};
use vstd::prelude::*;
use vstd::slice::{slice_subrange, slice_to_vec};

verus! {

/// What the installer does with one declared item.
#[derive(Clone, Copy, Debug, PartialEq, Eq, Structural)]
pub enum PlanTag {
    /// The item is written to the target.
    Create,
    /// The item's path exists in the target and may not be overwritten.
    Conflict,
    /// The item did not verify and is left out.
    Skip,
}

/// The plan of one install: the tag of each declared item, in the order of the listing.
#[derive(Clone, Debug, PartialEq, Eq)]
pub struct InstallPlan {
    pub tags: Vec<PlanTag>,
}

impl View for InstallPlan {
    type V = Seq<PlanTag>;

    open spec fn view(&self) -> Seq<PlanTag> {
        self.tags@
    }
}

/// The tag of an item: an item that did not verify is never written; one whose path exists
/// is a conflict unless overwriting is forced.
pub open spec fn tag_of(verdict: Verdict, present: bool, force: bool) -> PlanTag {
    if !(verdict is Match) {
        PlanTag::Skip
    } else if present && !force {
        PlanTag::Conflict
    } else {
        PlanTag::Create
    }
}

/// The plan for items with the given verdicts, where `present` tells for each item whether
/// its path exists in the target.
pub open spec fn planned(verdicts: Seq<Verdict>, present: Seq<bool>, force: bool) -> Seq<PlanTag> {
    Seq::new(verdicts.len(), |i: int| tag_of(verdicts[i], present[i], force))
}

/// The first item of a plan that is a conflict.
pub open spec fn first_conflict(tags: Seq<PlanTag>) -> Option<int> {
    first_where(tags.len(), |i: int| tags[i] == PlanTag::Conflict)
}

/// Builds the plan: see [`planned`]. There is no plan where the findings are not as many
/// as the verdicts.
pub fn build_plan(verdicts: &[VerificationResult], present: &[bool], force: bool) -> (r: Option<
    InstallPlan,
>)
    ensures
        match r {
            Some(plan) => present@.len() == verdicts@.len() && plan@ == planned(
                crate::integrity::verdicts_view(verdicts@),
                present@,
                force,
            ),
            None => present@.len() != verdicts@.len(),
        },
{
    if present.len() != verdicts.len() {
        return None;
    }
    let mut tags: Vec<PlanTag> = Vec::new();
    let mut i: usize = 0;
    while i < verdicts.len()
        invariant
            i <= verdicts@.len(),
            present@.len() == verdicts@.len(),
            tags@.len() == i,
            forall|k: int|
                0 <= k < i ==> #[trigger] tags@[k] == tag_of(verdicts@[k]@, present@[k], force),
        decreases verdicts@.len() - i,
    {
        let tag = if !verdicts[i].is_match() {
            PlanTag::Skip
        } else if present[i] && !force {
            PlanTag::Conflict
        } else {
            PlanTag::Create
        };
        tags.push(tag);
        i += 1;
    }
    assert(tags@ =~= planned(crate::integrity::verdicts_view(verdicts@), present@, force));
    Some(InstallPlan { tags })
}

impl InstallPlan {
    /// The first item that is a conflict, if the plan has one.
    pub fn conflict(&self) -> (r: Option<usize>)
        ensures
            match r {
                Some(i) => {
                    &&& first_conflict(self@) == Some(i as int)
                    &&& i < self@.len()
                    &&& self@[i as int] == PlanTag::Conflict
                    &&& forall|k: int| 0 <= k < i ==> #[trigger] self@[k] != PlanTag::Conflict
                },
                None => {
                    &&& first_conflict(self@) is None
                    &&& forall|k: int| 0 <= k < self@.len() ==> #[trigger] self@[k] != PlanTag::Conflict
                },
            },
    {
        let ghost hit = |i: int| self@[i] == PlanTag::Conflict;
        let mut i: usize = 0;
        while i < self.tags.len()
            invariant
                i <= self.tags@.len(),
                hit == (|i: int| self@[i] == PlanTag::Conflict),
                forall|k: int| 0 <= k < i ==> !#[trigger] hit(k),
                forall|k: int| 0 <= k < i ==> #[trigger] self@[k] != PlanTag::Conflict,
            decreases self.tags@.len() - i,
        {
            if self.tags[i] == PlanTag::Conflict {
                proof {
                    lemma_first_where_is(self@.len(), hit, i as int);
                }
                return Some(i);
            }
            i += 1;
        }
        proof {
            crate::search::lemma_first_where(self@.len(), hit);
        }
        None
    }
}

/// Whether a directory name ends just before index `i` of `path`.
pub open spec fn is_separator_at(path: Seq<u8>, i: int) -> bool {
    0 < i < path.len() && path[i] == 47 && path[i - 1] != 47
}

/// The directories above `path` that are named within its first `n` bytes, outermost
/// first.
pub open spec fn parents_within(path: Seq<u8>, n: nat) -> Seq<Seq<u8>>
    decreases n,
{
    if n == 0 {
        Seq::empty()
    } else {
        let before = parents_within(path, (n - 1) as nat);
        if is_separator_at(path, n - 1) {
            before.push(path.take(n - 1))
        } else {
            before
        }
    }
}

/// The directories above `path`, outermost first.
pub open spec fn parents(path: Seq<u8>) -> Seq<Seq<u8>> {
    parents_within(path, path.len())
}

/// A step for each directory: make it unless it is there.
pub open spec fn ensure_all(dirs: Seq<Seq<u8>>) -> Seq<StepView> {
    dirs.map_values(|d: Seq<u8>| StepView::EnsureDir { path: d })
}

/// The step that gives an item its declared owner, group and permission bits, where the
/// item spells its mode.
pub open spec fn meta_steps(f: FileView) -> Seq<StepView> {
    match mode_of(f) {
        Some(m) => seq![
            StepView::SetMeta { path: path_of(f), mode: m as u32, uid: f.uid, gid: f.gid },
        ],
        None => Seq::empty(),
    }
}

/// The step that puts an item itself in place.
pub open spec fn place_step(f: FileView) -> StepView {
    if declares_directory(f) {
        StepView::EnsureDir { path: path_of(f) }
    } else {
        StepView::WriteFile { path: path_of(f) }
    }
}

/// The steps that install one item: the directories above it, the item, its metadata.
pub open spec fn entry_steps(f: FileView) -> Seq<StepView> {
    ensure_all(parents(path_of(f))) + seq![place_step(f)] + meta_steps(f)
}

/// The tag of item `i`; an item without a tag is left out.
pub open spec fn tag_at(tags: Seq<PlanTag>, i: int) -> PlanTag {
    if 0 <= i < tags.len() {
        tags[i]
    } else {
        PlanTag::Skip
    }
}

/// Whether item `i` is installed in the pass over directories (`dirs`) or in the pass over
/// files.
pub open spec fn in_pass(files: Seq<FileView>, tags: Seq<PlanTag>, dirs: bool, i: int) -> bool {
    tag_at(tags, i) == PlanTag::Create && declares_directory(files[i]) == dirs
}

/// The steps of one pass over the first `n` items, in the order of the listing.
pub open spec fn pass(files: Seq<FileView>, tags: Seq<PlanTag>, dirs: bool, n: nat) -> Seq<
    StepView,
>
    decreases n,
{
    if n == 0 {
        Seq::empty()
    } else {
        let before = pass(files, tags, dirs, (n - 1) as nat);
        if in_pass(files, tags, dirs, n - 1) {
            before + entry_steps(files[n - 1])
        } else {
            before
        }
    }
}

/// The steps that carry a plan out: first the declared directories, then the files, each
/// pass in the order of the listing.
pub open spec fn script_of(files: Seq<FileView>, tags: Seq<PlanTag>) -> Seq<StepView> {
    pass(files, tags, true, files.len()) + pass(files, tags, false, files.len())
}

fn push_parents(path: &[u8], steps: &mut Vec<Step>)
    ensures
        crate::target::steps_view(final(steps)@) == crate::target::steps_view(old(steps)@)
            + ensure_all(parents(path@)),
{
    let ghost start = crate::target::steps_view(steps@);
    let mut i: usize = 0;
    proof {
        assert(start + ensure_all(parents_within(path@, 0)) =~= start);
    }
    while i < path.len()
        invariant
            i <= path@.len(),
            crate::target::steps_view(steps@) == start + ensure_all(
                parents_within(path@, i as nat),
            ),
        decreases path@.len() - i,
    {
        if i > 0 && path[i] == 47 && path[i - 1] != 47 {
            let ghost before = crate::target::steps_view(steps@);
            let dir = slice_to_vec(slice_subrange(path, 0, i));
            assert(dir@ =~= path@.take(i as int));
            steps.push(Step::EnsureDir { path: dir });
            proof {
                let known = parents_within(path@, i as nat);
                assert(crate::target::steps_view(steps@) =~= before.push(
                    StepView::EnsureDir { path: path@.take(i as int) },
                ));
                assert(ensure_all(known.push(path@.take(i as int))) =~= ensure_all(known).push(
                    StepView::EnsureDir { path: path@.take(i as int) },
                ));
                assert(start + ensure_all(known).push(
                    StepView::EnsureDir { path: path@.take(i as int) },
                ) =~= (start + ensure_all(known)).push(
                    StepView::EnsureDir { path: path@.take(i as int) },
                ));
            }
        }
        i += 1;
    }
}

fn push_entry(entry: &File, steps: &mut Vec<Step>)
    ensures
        crate::target::steps_view(final(steps)@) == crate::target::steps_view(old(steps)@)
            + entry_steps(entry@),
{
    let ghost start = crate::target::steps_view(steps@);
    let path = entry.path_bytes();
    push_parents(path, steps);
    let ghost mid = crate::target::steps_view(steps@);
    let own = slice_to_vec(path);
    if entry.is_directory() {
        steps.push(Step::EnsureDir { path: own });
    } else {
        steps.push(Step::WriteFile { path: own });
    }
    assert(crate::target::steps_view(steps@) =~= mid.push(place_step(entry@)));
    let ghost placed = crate::target::steps_view(steps@);
    match entry.mode_bits() {
        Some(mode) => {
            steps.push(
                Step::SetMeta { path: slice_to_vec(path), mode, uid: entry.Uid, gid: entry.Gid },
            );
            assert(crate::target::steps_view(steps@) =~= placed + meta_steps(entry@));
        },
        None => {
            assert(placed + meta_steps(entry@) =~= placed);
        },
    }
    assert(crate::target::steps_view(steps@) =~= start + entry_steps(entry@));
}

fn push_pass(files: &Files, tags: &[PlanTag], dirs: bool, steps: &mut Vec<Step>)
    ensures
        crate::target::steps_view(final(steps)@) == crate::target::steps_view(old(steps)@) + pass(
            files@,
            tags@,
            dirs,
            files@.len(),
        ),
{
    let ghost start = crate::target::steps_view(steps@);
    let mut i: usize = 0;
    proof {
        assert(start + pass(files@, tags@, dirs, 0) =~= start);
    }
    while i < files.File.len()
        invariant
            i <= files.File@.len(),
            crate::target::steps_view(steps@) == start + pass(files@, tags@, dirs, i as nat),
        decreases files.File@.len() - i,
    {
        let entry = &files.File[i];
        assert(files@[i as int] == entry@);
        let create = i < tags.len() && tags[i] == PlanTag::Create;
        let ghost before = pass(files@, tags@, dirs, i as nat);
        if create && entry.is_directory() == dirs {
            push_entry(entry, steps);
            assert(start + (before + entry_steps(entry@)) =~= (start + before) + entry_steps(
                entry@,
            ));
        }
        i += 1;
    }
}

/// Writes the steps that carry a plan out: see [`script_of`].
pub fn build_script(files: &Files, plan: &InstallPlan) -> (steps: Vec<Step>)
    ensures
        crate::target::steps_view(steps@) == script_of(files@, plan@),
{
    let mut steps: Vec<Step> = Vec::new();
    assert(crate::target::steps_view(steps@) =~= Seq::empty());
    push_pass(files, plan.tags.as_slice(), true, &mut steps);
    push_pass(files, plan.tags.as_slice(), false, &mut steps);
    assert(Seq::<StepView>::empty() + pass(files@, plan@, true, files@.len()) =~= pass(
        files@,
        plan@,
        true,
        files@.len(),
    ));
    steps
}

/// Whether a step puts an item or a directory in place.
pub open spec fn is_placing(step: StepView) -> bool {
    step is EnsureDir || step is WriteFile
}

/// A script is orderly where it removes nothing and every metadata step comes right after
/// the step that puts its path in place.
pub open spec fn orderly(script: Seq<StepView>) -> bool {
    &&& forall|k: int| 0 <= k < script.len() ==> !(#[trigger] script[k] is Remove)
    &&& forall|k: int|
        0 <= k < script.len() && #[trigger] script[k] is SetMeta ==> k > 0 && is_placing(
            script[k - 1],
        ) && crate::target::step_path(script[k - 1]) == crate::target::step_path(script[k])
}

/// Whether `step` is the metadata step of item `i`, which the plan creates.
pub open spec fn sets_meta(files: Seq<FileView>, tags: Seq<PlanTag>, i: int, step: StepView) -> bool {
    &&& 0 <= i < files.len()
    &&& tag_at(tags, i) == PlanTag::Create
    &&& mode_of(files[i]) is Some
    &&& step == meta_steps(files[i])[0]
}

/// The steps of one item are orderly, begin with no metadata step, and hold no metadata
/// step but the item's own.
pub proof fn lemma_entry_steps(f: FileView)
    ensures
        orderly(entry_steps(f)),
        forall|k: int|
            0 <= k < entry_steps(f).len() && #[trigger] entry_steps(f)[k] is SetMeta ==> mode_of(
                f,
            ) is Some && entry_steps(f)[k] == meta_steps(f)[0],
        entry_steps(f).len() > 0,
{
    let dirs = ensure_all(parents(path_of(f)));
    let steps = entry_steps(f);
    let n = dirs.len() as int;
    assert(steps[n] == place_step(f));
    assert forall|k: int| 0 <= k < steps.len() && #[trigger] steps[k] is SetMeta implies k == n + 1
        && steps[k - 1] == place_step(f) && mode_of(f) is Some && steps[k] == meta_steps(f)[0] by {
        if k < n {
            assert(steps[k] == dirs[k]);
        }
    }
    assert forall|k: int| 0 <= k < steps.len() implies !(#[trigger] steps[k] is Remove) by {
        if k < n {
            assert(steps[k] == dirs[k]);
        }
    }
}

/// Joining two orderly scripts gives an orderly script.
pub proof fn lemma_orderly_join(a: Seq<StepView>, b: Seq<StepView>)
    requires
        orderly(a),
        orderly(b),
    ensures
        orderly(a + b),
{
    let s = a + b;
    assert forall|k: int| 0 <= k < s.len() implies !(#[trigger] s[k] is Remove) by {
        if k < a.len() {
            assert(s[k] == a[k]);
        } else {
            assert(s[k] == b[k - a.len()]);
        }
    }
    assert forall|k: int| 0 <= k < s.len() && #[trigger] s[k] is SetMeta implies k > 0
        && is_placing(s[k - 1]) && crate::target::step_path(s[k - 1])
        == crate::target::step_path(s[k]) by {
        if k < a.len() {
            assert(s[k] == a[k]);
            assert(s[k - 1] == a[k - 1]);
        } else {
            let j = k - a.len();
            assert(s[k] == b[j]);
            assert(j > 0);
            assert(s[k - 1] == b[j - 1]);
        }
    }
}

/// The steps of a pass are orderly, and each of their metadata steps is that of an item
/// which the plan creates.
pub proof fn lemma_pass(files: Seq<FileView>, tags: Seq<PlanTag>, dirs: bool, n: nat)
    requires
        n <= files.len(),
    ensures
        orderly(pass(files, tags, dirs, n)),
        forall|k: int|
            0 <= k < pass(files, tags, dirs, n).len() && #[trigger] pass(files, tags, dirs, n)[k] is SetMeta
                ==> exists|i: int| #[trigger] sets_meta(files, tags, i, pass(files, tags, dirs, n)[k]),
    decreases n,
{
    if n > 0 {
        let before = pass(files, tags, dirs, (n - 1) as nat);
        let all = pass(files, tags, dirs, n);
        lemma_pass(files, tags, dirs, (n - 1) as nat);
        if in_pass(files, tags, dirs, n - 1) {
            let own = entry_steps(files[n - 1]);
            lemma_entry_steps(files[n - 1]);
            lemma_orderly_join(before, own);
            assert forall|k: int| 0 <= k < all.len() && #[trigger] all[k] is SetMeta implies exists|
                i: int,
            | #[trigger] sets_meta(files, tags, i, all[k]) by {
                if k < before.len() {
                    assert(all[k] == before[k]);
                } else {
                    assert(all[k] == own[k - before.len()]);
                    assert(sets_meta(files, tags, n - 1, all[k]));
                }
            }
        }
    }
}

/// The script of a plan is orderly.
pub proof fn lemma_script_orderly(files: Seq<FileView>, tags: Seq<PlanTag>)
    ensures
        orderly(script_of(files, tags)),
{
    lemma_pass(files, tags, true, files.len());
    lemma_pass(files, tags, false, files.len());
    lemma_orderly_join(pass(files, tags, true, files.len()), pass(files, tags, false, files.len()));
}

/// Every metadata step of a script is that of an item which the plan creates.
pub proof fn lemma_script_metas(files: Seq<FileView>, tags: Seq<PlanTag>, k: int)
    requires
        0 <= k < script_of(files, tags).len(),
        script_of(files, tags)[k] is SetMeta,
    ensures
        exists|i: int| #[trigger] sets_meta(files, tags, i, script_of(files, tags)[k]),
{
    let a = pass(files, tags, true, files.len());
    let b = pass(files, tags, false, files.len());
    lemma_pass(files, tags, true, files.len());
    lemma_pass(files, tags, false, files.len());
    if k < a.len() {
        assert(script_of(files, tags)[k] == a[k]);
    } else {
        assert(script_of(files, tags)[k] == b[k - a.len()]);
    }
}

/// The steps of an item that is installed are part of the script: the step that puts the
/// item in place stands in it.
pub proof fn lemma_placed(files: Seq<FileView>, tags: Seq<PlanTag>, i: int)
    requires
        0 <= i < files.len(),
        tag_at(tags, i) == PlanTag::Create,
    ensures
        exists|k: int|
            0 <= k < script_of(files, tags).len() && #[trigger] script_of(files, tags)[k]
                == place_step(files[i]),
{
    let dirs = declares_directory(files[i]);
    lemma_placed_in_pass(files, tags, dirs, files.len(), i);
    let a = pass(files, tags, true, files.len());
    let b = pass(files, tags, false, files.len());
    let own = pass(files, tags, dirs, files.len());
    let k = choose|k: int| 0 <= k < own.len() && #[trigger] own[k] == place_step(files[i]);
    let script = script_of(files, tags);
    if dirs {
        assert(script[k] == a[k]);
        assert(script[k] == place_step(files[i]));
    } else {
        assert(script[a.len() + k] == b[k]);
        assert(script[a.len() + k] == place_step(files[i]));
    }
}

proof fn lemma_placed_in_pass(
    files: Seq<FileView>,
    tags: Seq<PlanTag>,
    dirs: bool,
    n: nat,
    i: int,
)
    requires
        0 <= i < n <= files.len(),
        in_pass(files, tags, dirs, i),
    ensures
        exists|k: int|
            0 <= k < pass(files, tags, dirs, n).len() && #[trigger] pass(files, tags, dirs, n)[k]
                == place_step(files[i]),
    decreases n,
{
    let before = pass(files, tags, dirs, (n - 1) as nat);
    let all = pass(files, tags, dirs, n);
    if i == n - 1 {
        let own = entry_steps(files[i]);
        let d = ensure_all(parents(path_of(files[i]))).len() as int;
        assert(own[d] == place_step(files[i]));
        assert(all[before.len() + d] == own[d]);
    } else {
        lemma_placed_in_pass(files, tags, dirs, (n - 1) as nat, i);
        let k = choose|k: int| 0 <= k < before.len() && #[trigger] before[k] == place_step(files[i]);
        assert(all[k] == before[k]);
    }
}

/// The metadata step of an item that is installed stands in the script.
pub proof fn lemma_meta_placed(files: Seq<FileView>, tags: Seq<PlanTag>, i: int)
    requires
        0 <= i < files.len(),
        tag_at(tags, i) == PlanTag::Create,
        mode_of(files[i]) is Some,
    ensures
        exists|k: int|
            0 <= k < script_of(files, tags).len() && #[trigger] script_of(files, tags)[k]
                == meta_steps(files[i])[0],
{
    let dirs = declares_directory(files[i]);
    lemma_meta_in_pass(files, tags, dirs, files.len(), i);
    let a = pass(files, tags, true, files.len());
    let b = pass(files, tags, false, files.len());
    let own = pass(files, tags, dirs, files.len());
    let k = choose|k: int| 0 <= k < own.len() && #[trigger] own[k] == meta_steps(files[i])[0];
    let script = script_of(files, tags);
    if dirs {
        assert(script[k] == a[k]);
        assert(script[k] == meta_steps(files[i])[0]);
    } else {
        assert(script[a.len() + k] == b[k]);
        assert(script[a.len() + k] == meta_steps(files[i])[0]);
    }
}

proof fn lemma_meta_in_pass(files: Seq<FileView>, tags: Seq<PlanTag>, dirs: bool, n: nat, i: int)
    requires
        0 <= i < n <= files.len(),
        in_pass(files, tags, dirs, i),
        mode_of(files[i]) is Some,
    ensures
        exists|k: int|
            0 <= k < pass(files, tags, dirs, n).len() && #[trigger] pass(files, tags, dirs, n)[k]
                == meta_steps(files[i])[0],
    decreases n,
{
    let before = pass(files, tags, dirs, (n - 1) as nat);
    let all = pass(files, tags, dirs, n);
    if i == n - 1 {
        let own = entry_steps(files[i]);
        let d = ensure_all(parents(path_of(files[i]))).len() as int;
        assert(own[d + 1] == meta_steps(files[i])[0]);
        assert(all[before.len() + d + 1] == own[d + 1]);
    } else {
        lemma_meta_in_pass(files, tags, dirs, (n - 1) as nat, i);
        let k = choose|k: int|
            0 <= k < before.len() && #[trigger] before[k] == meta_steps(files[i])[0];
        assert(all[k] == before[k]);
    }
}

/// Whether item `i` is a file that the plan writes to `path`.
pub open spec fn writes_to(files: Seq<FileView>, tags: Seq<PlanTag>, i: int, path: Seq<u8>) -> bool {
    &&& 0 <= i < files.len()
    &&& tag_at(tags, i) == PlanTag::Create
    &&& !declares_directory(files[i])
    &&& path_of(files[i]) == path
}

/// Every step of a pass that writes a file writes one of the items that the plan creates.
proof fn lemma_pass_writes(files: Seq<FileView>, tags: Seq<PlanTag>, dirs: bool, n: nat)
    requires
        n <= files.len(),
    ensures
        forall|k: int|
            0 <= k < pass(files, tags, dirs, n).len() && #[trigger] pass(files, tags, dirs, n)[k] is WriteFile
                ==> exists|i: int| #[trigger]
                writes_to(files, tags, i, crate::target::step_path(pass(files, tags, dirs, n)[k])),
    decreases n,
{
    if n > 0 {
        let before = pass(files, tags, dirs, (n - 1) as nat);
        let all = pass(files, tags, dirs, n);
        lemma_pass_writes(files, tags, dirs, (n - 1) as nat);
        assert forall|k: int| 0 <= k < all.len() && #[trigger] all[k] is WriteFile implies exists|
            i: int,
        | #[trigger] writes_to(files, tags, i, crate::target::step_path(all[k])) by {
            if k < before.len() {
                assert(all[k] == before[k]);
            } else {
                let f = files[n - 1];
                let own = entry_steps(f);
                let j = k - before.len();
                assert(all[k] == own[j]);
                let d = ensure_all(parents(path_of(f))).len() as int;
                if j < d {
                    assert(own[j] == ensure_all(parents(path_of(f)))[j]);
                } else if j == d {
                    assert(own[j] == place_step(f));
                    assert(writes_to(files, tags, n - 1, crate::target::step_path(all[k])));
                } else {
                    assert(own[j] == meta_steps(f)[j - d - 1]);
                }
            }
        }
    }
}

/// Every step of a script that writes a file writes one of the items that the plan
/// creates.
pub proof fn lemma_script_writes(files: Seq<FileView>, tags: Seq<PlanTag>, k: int)
    requires
        0 <= k < script_of(files, tags).len(),
        script_of(files, tags)[k] is WriteFile,
    ensures
        exists|i: int| #[trigger]
            writes_to(files, tags, i, crate::target::step_path(script_of(files, tags)[k])),
{
    let a = pass(files, tags, true, files.len());
    let b = pass(files, tags, false, files.len());
    lemma_pass_writes(files, tags, true, files.len());
    lemma_pass_writes(files, tags, false, files.len());
    if k < a.len() {
        assert(script_of(files, tags)[k] == a[k]);
    } else {
        assert(script_of(files, tags)[k] == b[k - a.len()]);
    }
}

/// Whether `path` is the path of item `i`, which the plan creates, or a directory above it.
pub open spec fn serves(files: Seq<FileView>, tags: Seq<PlanTag>, i: int, path: Seq<u8>) -> bool {
    &&& 0 <= i < files.len()
    &&& tag_at(tags, i) == PlanTag::Create
    &&& (path == path_of(files[i]) || parents(path_of(files[i])).contains(path))
}

/// Whether a step works on the path of an item that the plan creates, or on a directory
/// above it.
pub open spec fn served(files: Seq<FileView>, tags: Seq<PlanTag>, step: StepView) -> bool {
    exists|i: int| #[trigger] serves(files, tags, i, crate::target::step_path(step))
}

/// Every step of a pass works on the path of an item that the plan creates, or on a
/// directory above it.
proof fn lemma_pass_serves(files: Seq<FileView>, tags: Seq<PlanTag>, dirs: bool, n: nat)
    requires
        n <= files.len(),
    ensures
        forall|k: int|
            0 <= k < pass(files, tags, dirs, n).len() ==> served(
                files,
                tags,
                #[trigger] pass(files, tags, dirs, n)[k],
            ),
    decreases n,
{
    if n > 0 {
        let before = pass(files, tags, dirs, (n - 1) as nat);
        let all = pass(files, tags, dirs, n);
        lemma_pass_serves(files, tags, dirs, (n - 1) as nat);
        assert forall|k: int| 0 <= k < all.len() implies served(files, tags, #[trigger] all[k]) by {
            if k < before.len() {
                assert(all[k] == before[k]);
            } else {
                let f = files[n - 1];
                let own = entry_steps(f);
                let j = k - before.len();
                assert(all[k] == own[j]);
                let above = parents(path_of(f));
                let d = above.len() as int;
                if j < d {
                    assert(own[j] == ensure_all(above)[j]);
                    assert(above[j] == crate::target::step_path(own[j]));
                } else if j == d {
                    assert(own[j] == place_step(f));
                } else {
                    assert(own[j] == meta_steps(f)[j - d - 1]);
                }
                assert(serves(files, tags, n - 1, crate::target::step_path(all[k])));
            }
        }
    }
}

/// Every step of a script works on the path of an item that the plan creates, or on a
/// directory above it.
pub proof fn lemma_script_serves(files: Seq<FileView>, tags: Seq<PlanTag>, k: int)
    requires
        0 <= k < script_of(files, tags).len(),
    ensures
        served(files, tags, script_of(files, tags)[k]),
{
    let a = pass(files, tags, true, files.len());
    let b = pass(files, tags, false, files.len());
    lemma_pass_serves(files, tags, true, files.len());
    lemma_pass_serves(files, tags, false, files.len());
    if k < a.len() {
        assert(script_of(files, tags)[k] == a[k]);
    } else {
        assert(script_of(files, tags)[k] == b[k - a.len()]);
    }
}

} // verus!
