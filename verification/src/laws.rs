//! What holds of every install on a target in memory.

use crate::archive::{
    extracted, holds_sparse_header, is_safe_path, lemma_traversal_rejected, tar_entries,
    xz_decoded, ArchiveErrorKind, MemberView,
};
use crate::digest::{digest_matches, sha1_of};
use crate::installer::{
    after_advance, after_plan, after_record, carried_out, install_outcome,
    installation_wf, lemma_one_step, measure_of, next_step_of, one_step, present_in, run,
    stage_of, staging_of, InstallFault, InstallOptions, InstallationView, Stage,
};
use crate::integrity::{verdict_of, verdicts_of, Policy, Verdict};
use crate::machine::{machine_record, machine_start, MachineView, Phase};
use crate::parser::{
    declares_directory, files_document, metadata_document, mode_of, path_of,
};
use crate::plan::{
    first_conflict, is_placing, lemma_meta_placed, lemma_script_serves, serves, lemma_placed, lemma_script_metas, lemma_script_orderly,
    lemma_script_writes, meta_steps, orderly, place_step, planned, script_of, sets_meta, tag_at,
    tag_of, writes_to, PlanTag,
};
use crate::search::{lemma_first_where, lemma_first_where_is};
use crate::target::{fs_step, step_path, FsView, Outcome, StepView};
use crate::text::utf8;
use vstd::prelude::*;

verus! {

/// Whether the target holds what a step was to bring about.
pub open spec fn effect_holds(fs: FsView, step: StepView, staging: Map<Seq<u8>, MemberView>) -> bool {
    match step {
        StepView::EnsureDir { path } => fs.nodes.contains_key(path) && fs.nodes[path].is_dir,
        StepView::WriteFile { path } => staging.contains_key(path) && fs.nodes.contains_key(path)
            && !fs.nodes[path].is_dir && fs.nodes[path].content == staging[path].content,
        StepView::SetMeta { path, mode, uid, gid } => fs.nodes.contains_key(path)
            && fs.nodes[path].mode == mode && fs.nodes[path].uid == uid && fs.nodes[path].gid
            == gid,
        StepView::Remove { .. } => true,
    }
}

/// The machine of a planned installation.
pub open spec fn machine_of(v: InstallationView) -> MachineView {
    match v {
        InstallationView::Planned { machine, .. } => machine,
        _ => machine_start(Seq::empty()),
    }
}

/// A step that succeeds brings its effect about.
proof fn lemma_effect_made(fs: FsView, step: StepView, staging: Map<Seq<u8>, MemberView>)
    requires
        !(fs_step(fs, step, staging).1 is Failed),
    ensures
        effect_holds(fs_step(fs, step, staging).0, step, staging),
{
}

/// A step that succeeds keeps the effect of an earlier step, unless both set the metadata
/// of one path.
proof fn lemma_effect_kept(
    fs: FsView,
    step: StepView,
    staging: Map<Seq<u8>, MemberView>,
    earlier: StepView,
)
    requires
        !(fs_step(fs, step, staging).1 is Failed),
        !(step is Remove),
        effect_holds(fs, earlier, staging),
        !(step is SetMeta && earlier is SetMeta && step_path(step) == step_path(earlier)),
    ensures
        effect_holds(fs_step(fs, step, staging).0, earlier, staging),
{
}

/// Whether a metadata step after step `k` and before `upto` works on the path of step `k`,
/// which is a metadata step too.
pub open spec fn superseded(script: Seq<StepView>, k: int, upto: int) -> bool {
    script[k] is SetMeta && exists|j: int|
        k < j < upto && #[trigger] script[j] is SetMeta && step_path(script[j]) == step_path(
            script[k],
        )
}

/// Whether the target holds what step `k` was to bring about, or a later metadata step
/// before `upto` has set the metadata of its path anew.
pub open spec fn settled_step(
    fs: FsView,
    script: Seq<StepView>,
    staging: Map<Seq<u8>, MemberView>,
    k: int,
    upto: int,
) -> bool {
    effect_holds(fs, script[k], staging) || superseded(script, k, upto)
}

/// Carrying out an orderly script ends installed or failed; where it ends installed, the
/// target holds the effect of every step but for metadata that a later step has set anew.
proof fn lemma_run_effects(v: InstallationView, fs: FsView)
    requires
        installation_wf(v),
        v is Planned,
        orderly(machine_of(v).script),
        machine_of(v).phase == Phase::Applying ==> forall|k: int|
            0 <= k < machine_of(v).pos ==> #[trigger] settled_step(
                fs,
                machine_of(v).script,
                staging_of(v),
                k,
                machine_of(v).pos as int,
            ),
    ensures
        run(v, fs).0 is Installed || run(v, fs).0 is Failed,
        machine_of(v).phase == Phase::RollingBack ==> run(v, fs).0 is Failed,
        run(v, fs).0 is Installed ==> forall|k: int|
            0 <= k < machine_of(v).script.len() ==> #[trigger] settled_step(
                run(v, fs).1,
                machine_of(v).script,
                staging_of(v),
                k,
                machine_of(v).script.len() as int,
            ),
    decreases measure_of(v),
{
    let m = machine_of(v);
    let staging = staging_of(v);
    let script = m.script;
    let step = next_step_of(v)->0;
    let fs2 = fs_step(fs, step, staging).0;
    let out = fs_step(fs, step, staging).1;
    let v2 = after_record(v, out);
    let m2 = machine_record(m, out);
    lemma_one_step(v, fs);
    assert(one_step(v, fs) == (v2, fs2));
    assert(run(v, fs) == run(v2, fs2));
    if m.phase == Phase::Applying {
        let pos = m.pos as int;
        if step is SetMeta {
            // the step before it put the path in place, so the metadata can be set
            assert(settled_step(fs, script, staging, pos - 1, pos));
            assert(!(out is Failed));
        }
        if !(out is Failed) {
            lemma_effect_made(fs, step, staging);
            assert forall|k: int| 0 <= k < pos + 1 implies #[trigger] settled_step(
                fs2,
                script,
                staging,
                k,
                pos + 1,
            ) by {
                if k < pos {
                    assert(settled_step(fs, script, staging, k, pos));
                    if superseded(script, k, pos) {
                        let j = choose|j: int|
                            k < j < pos && #[trigger] script[j] is SetMeta && step_path(script[j])
                                == step_path(script[k]);
                        assert(script[j] is SetMeta);
                    } else if step is SetMeta && script[k] is SetMeta && step_path(step)
                        == step_path(script[k]) {
                        assert(script[pos] is SetMeta);
                    } else {
                        lemma_effect_kept(fs, step, staging, script[k]);
                    }
                }
            }
        }
    }
    if v2 is Planned {
        assert(machine_of(v2) == m2);
        assert(staging_of(v2) == staging);
        lemma_run_effects(v2, fs2);
    } else {
        assert(run(v2, fs2) == (v2, fs2));
    }
}

/// After metadata step `k` there is a last metadata step on the same path.
proof fn lemma_last_meta(script: Seq<StepView>, k: int)
    requires
        0 <= k < script.len(),
        script[k] is SetMeta,
    ensures
        exists|j: int|
            k <= j < script.len() && #[trigger] script[j] is SetMeta && step_path(script[j])
                == step_path(script[k]) && !superseded(script, j, script.len() as int),
    decreases script.len() - k,
{
    if superseded(script, k, script.len() as int) {
        let n = choose|n: int|
            k < n < script.len() && #[trigger] script[n] is SetMeta && step_path(script[n])
                == step_path(script[k]);
        lemma_last_meta(script, n);
        let j = choose|j: int|
            n <= j < script.len() && #[trigger] script[j] is SetMeta && step_path(script[j])
                == step_path(script[n]) && !superseded(script, j, script.len() as int);
        assert(script[j] is SetMeta);
    } else {
        assert(script[k] is SetMeta);
    }
}

/// Whether what stands at `path` after an install is what stood there before, metadata
/// aside.
pub open spec fn kept(before: FsView, after: FsView, path: Seq<u8>) -> bool {
    &&& before.nodes.contains_key(path)
    &&& before.nodes[path].is_dir == after.nodes[path].is_dir
    &&& before.nodes[path].content == after.nodes[path].content
}

/// Where carrying out a script ends failed, whatever the target then holds stood there
/// before the script began.
proof fn lemma_run_rollback(v: InstallationView, fs: FsView, origin: FsView)
    requires
        installation_wf(v),
        v is Planned,
        forall|p: Seq<u8>| #[trigger]
            fs.nodes.contains_key(p) ==> machine_of(v).created.contains(p) || kept(origin, fs, p),
    ensures
        run(v, fs).0 is Failed ==> forall|p: Seq<u8>| #[trigger]
            run(v, fs).1.nodes.contains_key(p) ==> kept(origin, run(v, fs).1, p),
    decreases measure_of(v),
{
    let m = machine_of(v);
    let staging = staging_of(v);
    let step = next_step_of(v)->0;
    let fs2 = fs_step(fs, step, staging).0;
    let out = fs_step(fs, step, staging).1;
    let v2 = after_record(v, out);
    let m2 = machine_record(m, out);
    lemma_one_step(v, fs);
    assert(one_step(v, fs) == (v2, fs2));
    assert(run(v, fs) == run(v2, fs2));
    assert forall|p: Seq<u8>| #[trigger] fs2.nodes.contains_key(p) implies m2.created.contains(p)
        || kept(origin, fs2, p) by {
        if m.phase == Phase::Applying {
            if p == step_path(step) {
                if m2.created.len() == m.created.len() + 1 {
                    assert(m2.created[m.created.len() as int] == p);
                } else if m.created.contains(p) {
                    let i = choose|i: int| 0 <= i < m.created.len() && m.created[i] == p;
                    assert(m2.created[i] == p);
                }
            } else {
                assert(fs.nodes.contains_key(p));
                if m.created.contains(p) {
                    let i = choose|i: int| 0 <= i < m.created.len() && m.created[i] == p;
                    assert(m2.created[i] == p);
                }
            }
        } else {
            assert(p != m.created.last());
            assert(fs.nodes.contains_key(p));
            if m.created.contains(p) {
                let i = choose|i: int| 0 <= i < m.created.len() && m.created[i] == p;
                assert(m2.created[i] == p);
            }
        }
    }
    if v2 is Planned {
        assert(machine_of(v2) == m2);
        lemma_run_rollback(v2, fs2, origin);
    } else {
        assert(run(v2, fs2) == (v2, fs2));
        if v2 is Failed {
            assert(m2.created.len() == 0);
        }
    }
}

/// Whether a metadata step at or after `pos` works on `path`.
pub open spec fn pending(script: Seq<StepView>, path: Seq<u8>, pos: int) -> bool {
    exists|j: int|
        pos <= j < script.len() && #[trigger] script[j] is SetMeta && step_path(script[j]) == path
}

/// Whether the target is `goal` but for the metadata of paths that a step at or after
/// `pos` will set.
pub open spec fn agrees(fs: FsView, goal: FsView, script: Seq<StepView>, pos: int) -> bool {
    &&& fs.free == goal.free
    &&& forall|p: Seq<u8>| #[trigger] fs.nodes.contains_key(p) == goal.nodes.contains_key(p)
    &&& forall|p: Seq<u8>| #[trigger]
        goal.nodes.contains_key(p) ==> {
            &&& fs.nodes[p].is_dir == goal.nodes[p].is_dir
            &&& fs.nodes[p].content == goal.nodes[p].content
            &&& (fs.nodes[p] == goal.nodes[p] || pending(script, p, pos))
        }
}

/// Carrying out a script on the target that carrying it out has left, or on one that
/// differs from it only in metadata that the steps to come will set, ends installed with
/// that target.
proof fn lemma_run_again(v: InstallationView, fs: FsView, goal: FsView)
    requires
        installation_wf(v),
        v is Planned,
        machine_of(v).phase == Phase::Applying,
        orderly(machine_of(v).script),
        forall|k: int|
            0 <= k < machine_of(v).script.len() ==> #[trigger] settled_step(
                goal,
                machine_of(v).script,
                staging_of(v),
                k,
                machine_of(v).script.len() as int,
            ),
        agrees(fs, goal, machine_of(v).script, machine_of(v).pos as int),
    ensures
        run(v, fs).0 is Installed,
        run(v, fs).1 == goal,
    decreases measure_of(v),
{
    let m = machine_of(v);
    let script = m.script;
    let staging = staging_of(v);
    let pos = m.pos as int;
    let len = script.len() as int;
    let step = next_step_of(v)->0;
    let fs2 = fs_step(fs, step, staging).0;
    let out = fs_step(fs, step, staging).1;
    let v2 = after_record(v, out);
    let path = step_path(step);
    assert(settled_step(goal, script, staging, pos, len));
    assert(fs.nodes.contains_key(path) == goal.nodes.contains_key(path));
    if step is SetMeta {
        assert(settled_step(goal, script, staging, pos - 1, len));
        assert(goal.nodes.contains_key(path));
    } else {
        assert(effect_holds(goal, step, staging));
        assert(goal.nodes.contains_key(path));
        assert(fs2.nodes =~= fs.nodes);
    }
    assert(!(out is Failed));
    assert(agrees(fs2, goal, script, pos + 1)) by {
        assert forall|p: Seq<u8>| #[trigger] goal.nodes.contains_key(p) implies fs2.nodes[p].is_dir
            == goal.nodes[p].is_dir && fs2.nodes[p].content == goal.nodes[p].content && (
        fs2.nodes[p] == goal.nodes[p] || pending(script, p, pos + 1)) by {
            assert(fs.nodes.contains_key(p));
            if step is SetMeta && p == path {
                if superseded(script, pos, len) {
                    let j = choose|j: int|
                        pos < j < len && #[trigger] script[j] is SetMeta && step_path(script[j])
                            == step_path(script[pos]);
                    assert(script[j] is SetMeta);
                }
            } else if fs.nodes[p] != goal.nodes[p] {
                let j = choose|j: int|
                    pos <= j < len && #[trigger] script[j] is SetMeta && step_path(script[j]) == p;
                assert(script[j] is SetMeta);
                assert(j != pos);
            }
        }
        assert forall|p: Seq<u8>| #[trigger]
            fs2.nodes.contains_key(p) == goal.nodes.contains_key(p) by {
            assert(fs.nodes.contains_key(p) == goal.nodes.contains_key(p));
        }
    }
    lemma_one_step(v, fs);
    assert(one_step(v, fs) == (v2, fs2));
    assert(run(v, fs) == run(v2, fs2));
    if v2 is Planned {
        assert(machine_of(v2).script == script);
        assert(staging_of(v2) == staging);
        lemma_run_again(v2, fs2, goal);
    } else {
        assert(run(v2, fs2) == (v2, fs2));
        assert(pos + 1 == len);
        assert forall|p: Seq<u8>| #[trigger] goal.nodes.contains_key(p) implies fs2.nodes[p]
            == goal.nodes[p] by {
            if pending(script, p, len) {
                let j = choose|j: int|
                    len <= j < len && #[trigger] script[j] is SetMeta && step_path(script[j]) == p;
            }
        }
        assert(fs2.nodes =~= goal.nodes);
    }
}

/// Where carrying out a script ends failed, it ends with an input/output error.
proof fn lemma_run_fault(v: InstallationView, fs: FsView)
    requires
        installation_wf(v),
        v is Planned,
    ensures
        run(v, fs).0 is Installed || run(v, fs).0 is Failed,
        run(v, fs).0 matches InstallationView::Failed { error } ==> error is IOError,
    decreases measure_of(v),
{
    let step = next_step_of(v)->0;
    let fs2 = fs_step(fs, step, staging_of(v)).0;
    let out = fs_step(fs, step, staging_of(v)).1;
    let v2 = after_record(v, out);
    lemma_one_step(v, fs);
    assert(one_step(v, fs) == (v2, fs2));
    assert(run(v, fs) == run(v2, fs2));
    if v2 is Planned {
        lemma_run_fault(v2, fs2);
    } else {
        assert(run(v2, fs2) == (v2, fs2));
    }
}

/// The installation of a bundle at the stage at which planning begins, or failed before
/// it.
pub open spec fn verified_stage(
    metadata_xml: Seq<char>,
    files_xml: Seq<char>,
    archive: Seq<u8>,
    options: InstallOptions,
) -> InstallationView {
    after_advance(
        after_advance(
            after_advance(InstallationView::Loaded { options, metadata_xml, files_xml, archive }),
        ),
    )
}

/// What the stage before planning holds: the parsed documents, the staged archive and the
/// verdicts on the declared items; or the failure to get there.
pub proof fn lemma_verified_stage(
    metadata_xml: Seq<char>,
    files_xml: Seq<char>,
    archive: Seq<u8>,
    options: InstallOptions,
)
    ensures
        match verified_stage(metadata_xml, files_xml, archive, options) {
            InstallationView::Verified { options: chosen, metadata, files, staging, verdicts } => {
                &&& chosen == options
                &&& metadata_document(utf8(metadata_xml)) == Ok::<_, crate::error::ParseFault>(
                    metadata,
                )
                &&& files_document(utf8(files_xml)) == Ok::<_, crate::error::ParseFault>(files)
                &&& extracted(archive) == Ok::<_, crate::archive::ArchiveFault>(staging)
                &&& verdicts == verdicts_of(files, staging)
                &&& (options.policy == Policy::Strict ==> forall|i: int|
                    0 <= i < files.len() ==> #[trigger] verdict_of(files[i], staging) is Match)
            },
            InstallationView::Failed { error } => {
                &&& !(error is IOError)
                &&& !(error is ConflictError)
                &&& (metadata_document(utf8(metadata_xml)) is Err || files_document(
                    utf8(files_xml),
                ) is Err) <==> error is ParseError
                &&& error is IntegrityError ==> options.policy == Policy::Strict
            },
            _ => false,
        },
        installation_wf(verified_stage(metadata_xml, files_xml, archive, options)),
{
    let loaded = InstallationView::Loaded { options, metadata_xml, files_xml, archive };
    let first = after_advance(loaded);
    let second = after_advance(first);
    let third = after_advance(second);
    if first is ManifestParsed {
        let files = files_document(utf8(files_xml))->Ok_0;
        if second is Extracted {
            let staging = extracted(archive)->Ok_0;
            let verdicts = verdicts_of(files, staging);
            lemma_first_where(verdicts.len(), |i: int| !(verdicts[i] is Match));
            if third is Verified && options.policy == Policy::Strict {
                assert forall|i: int| 0 <= i < files.len() implies #[trigger] verdict_of(
                    files[i],
                    staging,
                ) is Match by {
                    assert(verdicts[i] == verdict_of(files[i], staging));
                    let hit = |i: int| !(verdicts[i] is Match);
                    assert(!hit(i));
                }
            }
        }
    }
}

/// The plan of a verified installation against a target, before it is carried out.
pub open spec fn plan_against(v: InstallationView, fs: FsView) -> InstallationView {
    match v {
        InstallationView::Verified { files, .. } => after_plan(v, present_in(files, fs)),
        _ => v,
    }
}

/// Whether no other item of the listing names the path of item `i`.
pub open spec fn named_once(files: Seq<crate::parser::FileView>, i: int) -> bool {
    forall|j: int| 0 <= j < files.len() && j != i ==> path_of(#[trigger] files[j]) != path_of(files[i])
}

/// An install that ends installed has put every declared item that verified in place: a
/// directory where a directory was declared, and otherwise a file with the staged content,
/// whose digest is the declared one. Where no other item names its path and its mode is an
/// octal number, the item has its declared owner, group and permission bits.
pub proof fn lemma_verified_items_installed(
    metadata_xml: Seq<char>,
    files_xml: Seq<char>,
    archive: Seq<u8>,
    options: InstallOptions,
    fs: FsView,
    i: int,
)
    requires
        install_outcome(metadata_xml, files_xml, archive, options, fs).0 is Installed,
        0 <= i < files_document(utf8(files_xml))->Ok_0.len(),
        verdict_of(files_document(utf8(files_xml))->Ok_0[i], extracted(archive)->Ok_0) is Match,
    ensures
        ({
            let after = install_outcome(metadata_xml, files_xml, archive, options, fs).1;
            let f = files_document(utf8(files_xml))->Ok_0[i];
            let staging = extracted(archive)->Ok_0;
            &&& effect_holds(after, place_step(f), staging)
            &&& named_once(files_document(utf8(files_xml))->Ok_0, i) && mode_of(f) is Some
                ==> effect_holds(after, meta_steps(f)[0], staging)
            &&& !declares_directory(f) ==> digest_matches(
                f.hash,
                sha1_of(after.nodes[path_of(f)].content),
            )
        }),
{
    let v = verified_stage(metadata_xml, files_xml, archive, options);
    lemma_verified_stage(metadata_xml, files_xml, archive, options);
    assert(install_outcome(metadata_xml, files_xml, archive, options, fs) == carried_out(v, fs));
    if v is Failed {
        assert(carried_out(v, fs) == (v, fs));
    }
    let files = files_document(utf8(files_xml))->Ok_0;
    let staging = extracted(archive)->Ok_0;
    let verdicts = verdicts_of(files, staging);
    let tags = planned(verdicts, present_in(files, fs), options.force);
    let planned_view = after_plan(v, present_in(files, fs));
    lemma_first_where(tags.len(), |k: int| tags[k] == PlanTag::Conflict);
    if first_conflict(tags) is Some {
        assert(run(planned_view, fs) == (planned_view, fs));
    }
    let hit = |k: int| tags[k] == PlanTag::Conflict;
    assert(!hit(i));
    assert(verdicts[i] == verdict_of(files[i], staging));
    assert(tag_at(tags, i) == PlanTag::Create);
    let script = script_of(files, tags);
    lemma_placed(files, tags, i);
    let k = choose|k: int| 0 <= k < script.len() && #[trigger] script[k] == place_step(files[i]);
    lemma_script_orderly(files, tags);
    assert(planned_view is Planned);
    assert(machine_of(planned_view) == machine_start(script));
    lemma_run_effects(planned_view, fs);
    let after = run(planned_view, fs).1;
    assert(settled_step(after, script, staging, k, script.len() as int));
    if named_once(files, i) && mode_of(files[i]) is Some {
        lemma_meta_placed(files, tags, i);
        let m = choose|m: int|
            0 <= m < script.len() && #[trigger] script[m] == meta_steps(files[i])[0];
        lemma_last_meta(script, m);
        let j = choose|j: int|
            m <= j < script.len() && #[trigger] script[j] is SetMeta && step_path(script[j])
                == step_path(script[m]) && !superseded(script, j, script.len() as int);
        assert(settled_step(after, script, staging, j, script.len() as int));
        lemma_script_metas(files, tags, j);
        let owner = choose|owner: int| #[trigger] sets_meta(files, tags, owner, script[j]);
        assert(path_of(files[owner]) == path_of(files[i]));
        assert(owner == i);
    }
}

/// Round-trip integrity: after a successful install under the strict policy, every
/// declared item is in the target, and the digest of every installed file's content is the
/// declared one. An item whose path no other item names, and whose mode is an octal number,
/// has its declared permission bits, owner and group.
pub proof fn law_installed_content_verifies(
    metadata_xml: Seq<char>,
    files_xml: Seq<char>,
    archive: Seq<u8>,
    options: InstallOptions,
    fs: FsView,
    i: int,
)
    requires
        options.policy == Policy::Strict,
        install_outcome(metadata_xml, files_xml, archive, options, fs).0 is Installed,
        0 <= i < files_document(utf8(files_xml))->Ok_0.len(),
    ensures
        ({
            let after = install_outcome(metadata_xml, files_xml, archive, options, fs).1;
            let f = files_document(utf8(files_xml))->Ok_0[i];
            let node = after.nodes[path_of(f)];
            &&& after.nodes.contains_key(path_of(f))
            &&& node.is_dir == declares_directory(f)
            &&& !declares_directory(f) ==> digest_matches(f.hash, sha1_of(node.content))
            &&& named_once(files_document(utf8(files_xml))->Ok_0, i) && mode_of(f) is Some ==> {
                &&& mode_of(f) == Some(node.mode as nat)
                &&& node.uid == f.uid
                &&& node.gid == f.gid
            }
        }),
{
    let v = verified_stage(metadata_xml, files_xml, archive, options);
    lemma_verified_stage(metadata_xml, files_xml, archive, options);
    if v is Failed {
        assert(carried_out(v, fs) == (v, fs));
    }
    lemma_verified_items_installed(metadata_xml, files_xml, archive, options, fs, i);
}

/// Installing again without force, on the target that a successful install left, fails
/// with a conflict and changes nothing, provided the bundle declares an item that verifies.
pub proof fn law_reinstall_conflicts(
    metadata_xml: Seq<char>,
    files_xml: Seq<char>,
    archive: Seq<u8>,
    options: InstallOptions,
    fs: FsView,
    i: int,
)
    requires
        !options.force,
        install_outcome(metadata_xml, files_xml, archive, options, fs).0 is Installed,
        0 <= i < files_document(utf8(files_xml))->Ok_0.len(),
        verdict_of(files_document(utf8(files_xml))->Ok_0[i], extracted(archive)->Ok_0) is Match,
    ensures
        ({
            let after = install_outcome(metadata_xml, files_xml, archive, options, fs).1;
            let again = install_outcome(metadata_xml, files_xml, archive, options, after);
            let files = files_document(utf8(files_xml))->Ok_0;
            let staging = extracted(archive)->Ok_0;
            &&& again.0 matches InstallationView::Failed {
                error: InstallFault::ConflictError { index, path },
            }
            &&& index < files.len()
            &&& path == files[index as int].path
            &&& verdict_of(files[index as int], staging) is Match
            &&& forall|k: int| 0 <= k < index ==> !(#[trigger] verdict_of(files[k], staging) is Match)
            &&& again.1 == after
        }),
{
    let v = verified_stage(metadata_xml, files_xml, archive, options);
    lemma_verified_stage(metadata_xml, files_xml, archive, options);
    if v is Failed {
        assert(carried_out(v, fs) == (v, fs));
    }
    let after = install_outcome(metadata_xml, files_xml, archive, options, fs).1;
    let files = files_document(utf8(files_xml))->Ok_0;
    let staging = extracted(archive)->Ok_0;
    let verdicts = verdicts_of(files, staging);
    lemma_verified_items_installed(metadata_xml, files_xml, archive, options, fs, i);
    let tags = planned(verdicts, present_in(files, after), options.force);
    let hit = |k: int| tags[k] == PlanTag::Conflict;
    assert(hit(i));
    lemma_first_where(tags.len(), hit);
    let planned_view = after_plan(v, present_in(files, after));
    assert(planned_view is Failed);
    assert(run(planned_view, after) == (planned_view, after));
    let first = first_conflict(tags)->0;
    assert(hit(first));
    assert(verdicts[first] == verdict_of(files[first], staging));
    assert forall|k: int| 0 <= k < first implies !(#[trigger] verdict_of(files[k], staging) is Match) by {
        assert(!hit(k));
        assert(verdicts[k] == verdict_of(files[k], staging));
        if verdict_of(files[k], staging) is Match {
            lemma_verified_items_installed(metadata_xml, files_xml, archive, options, fs, k);
        }
    }
}

/// Installing again with force, on the target that a successful install left, succeeds and
/// leaves every path with the content and the metadata that it has.
pub proof fn law_forced_reinstall_changes_nothing(
    metadata_xml: Seq<char>,
    files_xml: Seq<char>,
    archive: Seq<u8>,
    options: InstallOptions,
    fs: FsView,
)
    requires
        install_outcome(metadata_xml, files_xml, archive, options, fs).0 is Installed,
    ensures
        ({
            let after = install_outcome(metadata_xml, files_xml, archive, options, fs).1;
            let forced = InstallOptions { force: true, policy: options.policy };
            let again = install_outcome(metadata_xml, files_xml, archive, forced, after);
            &&& again.0 is Installed
            &&& again.1 == after
        }),
{
    let forced = InstallOptions { force: true, policy: options.policy };
    let v = verified_stage(metadata_xml, files_xml, archive, options);
    let w = verified_stage(metadata_xml, files_xml, archive, forced);
    lemma_verified_stage(metadata_xml, files_xml, archive, options);
    lemma_verified_stage(metadata_xml, files_xml, archive, forced);
    if v is Failed {
        assert(carried_out(v, fs) == (v, fs));
    }
    let after = install_outcome(metadata_xml, files_xml, archive, options, fs).1;
    let files = files_document(utf8(files_xml))->Ok_0;
    let staging = extracted(archive)->Ok_0;
    let verdicts = verdicts_of(files, staging);
    assert(w is Verified) by {
        let loaded = InstallationView::Loaded { options, metadata_xml, files_xml, archive };
        let loaded_forced = InstallationView::Loaded {
            options: forced,
            metadata_xml,
            files_xml,
            archive,
        };
        assert(after_advance(after_advance(after_advance(loaded))) is Verified);
        assert(after_advance(after_advance(after_advance(loaded_forced))) is Verified);
    }
    let tags = planned(verdicts, present_in(files, fs), options.force);
    let tags_again = planned(verdicts, present_in(files, after), true);
    lemma_first_where(tags.len(), |k: int| tags[k] == PlanTag::Conflict);
    let first_plan = after_plan(v, present_in(files, fs));
    if first_conflict(tags) is Some {
        assert(run(first_plan, fs) == (first_plan, fs));
    }
    assert(tags =~= tags_again) by {
        assert forall|k: int| 0 <= k < tags.len() implies tags[k] == tags_again[k] by {
            let hit = |k: int| tags[k] == PlanTag::Conflict;
            assert(!hit(k));
        }
    }
    lemma_first_where(tags_again.len(), |k: int| tags_again[k] == PlanTag::Conflict);
    let script = script_of(files, tags);
    lemma_script_orderly(files, tags);
    let second_plan = after_plan(w, present_in(files, after));
    if script.len() == 0 {
        assert(run(first_plan, fs) == (first_plan, fs));
        assert(run(second_plan, after) == (second_plan, after));
    } else {
        assert(machine_of(first_plan) == machine_start(script));
        lemma_run_effects(first_plan, fs);
        assert(machine_of(second_plan) == machine_start(script));
        assert(agrees(after, after, script, 0));
        lemma_run_again(second_plan, after, after);
    }
}

/// An item whose staged content does not have the declared digest, where every other item
/// verifies, makes a strict install fail with an integrity error for that item, and nothing
/// is written.
pub proof fn law_corrupted_item_fails_strict_install(
    metadata_xml: Seq<char>,
    files_xml: Seq<char>,
    archive: Seq<u8>,
    options: InstallOptions,
    fs: FsView,
    i: int,
)
    requires
        options.policy == Policy::Strict,
        metadata_document(utf8(metadata_xml)) is Ok,
        files_document(utf8(files_xml)) is Ok,
        extracted(archive) is Ok,
        0 <= i < files_document(utf8(files_xml))->Ok_0.len(),
        !(verdict_of(files_document(utf8(files_xml))->Ok_0[i], extracted(archive)->Ok_0) is Match),
        forall|j: int|
            0 <= j < files_document(utf8(files_xml))->Ok_0.len() && j != i ==> #[trigger] verdict_of(
                files_document(utf8(files_xml))->Ok_0[j],
                extracted(archive)->Ok_0,
            ) is Match,
    ensures
        install_outcome(metadata_xml, files_xml, archive, options, fs) == (
            InstallationView::Failed {
                error: InstallFault::IntegrityError {
                    index: i as nat,
                    path: files_document(utf8(files_xml))->Ok_0[i].path,
                    verdict: verdict_of(
                        files_document(utf8(files_xml))->Ok_0[i],
                        extracted(archive)->Ok_0,
                    ),
                },
            },
            fs,
        ),
{
    let files = files_document(utf8(files_xml))->Ok_0;
    let staging = extracted(archive)->Ok_0;
    let verdicts = verdicts_of(files, staging);
    let hit = |k: int| !(verdicts[k] is Match);
    assert(hit(i));
    assert forall|k: int| 0 <= k < i implies !#[trigger] hit(k) by {
        assert(verdict_of(files[k], staging) is Match);
    }
    lemma_first_where_is(verdicts.len(), hit, i);
    let v = verified_stage(metadata_xml, files_xml, archive, options);
    assert(v is Failed);
    assert(carried_out(v, fs) == (v, fs));
}

/// An archive with a member whose path would leave the staging root makes the install
/// fail with an archive error, and nothing is written.
pub proof fn law_traversal_is_rejected(
    metadata_xml: Seq<char>,
    files_xml: Seq<char>,
    archive: Seq<u8>,
    options: InstallOptions,
    fs: FsView,
    k: int,
)
    requires
        metadata_document(utf8(metadata_xml)) is Ok,
        files_document(utf8(files_xml)) is Ok,
        xz_decoded(archive) is Some,
        !holds_sparse_header(xz_decoded(archive)->0),
        tar_entries(xz_decoded(archive)->0) is Some,
        0 <= k < tar_entries(xz_decoded(archive)->0)->0.len(),
        !is_safe_path(tar_entries(xz_decoded(archive)->0)->0[k].path),
    ensures
        ({
            let end = install_outcome(metadata_xml, files_xml, archive, options, fs);
            &&& end.0 matches InstallationView::Failed { error: InstallFault::ArchiveError(e) }
            &&& e.kind == ArchiveErrorKind::PathTraversal
            &&& end.1 == fs
        }),
{
    lemma_traversal_rejected(tar_entries(xz_decoded(archive)->0)->0, k);
    let v = verified_stage(metadata_xml, files_xml, archive, options);
    assert(v is Failed);
    assert(carried_out(v, fs) == (v, fs));
}

/// An install that fails before its plan is carried out writes nothing.
pub proof fn law_early_failure_writes_nothing(
    metadata_xml: Seq<char>,
    files_xml: Seq<char>,
    archive: Seq<u8>,
    options: InstallOptions,
    fs: FsView,
)
    requires
        install_outcome(metadata_xml, files_xml, archive, options, fs).0 matches InstallationView::Failed {
            error,
        } && !(error is IOError),
    ensures
        install_outcome(metadata_xml, files_xml, archive, options, fs).1 == fs,
{
    let v = verified_stage(metadata_xml, files_xml, archive, options);
    lemma_verified_stage(metadata_xml, files_xml, archive, options);
    if v is Failed {
        assert(carried_out(v, fs) == (v, fs));
    } else {
        let planned_view = plan_against(v, fs);
        if planned_view is Planned {
            lemma_run_fault(planned_view, fs);
        } else {
            assert(run(planned_view, fs) == (planned_view, fs));
        }
    }
}

/// Rollback completeness: after an install that failed, every path of the target stood
/// there before the install, with the content that it had; no file or directory that the
/// install wrote or made is left.
pub proof fn law_failed_install_leaves_nothing(
    metadata_xml: Seq<char>,
    files_xml: Seq<char>,
    archive: Seq<u8>,
    options: InstallOptions,
    fs: FsView,
    path: Seq<u8>,
)
    requires
        install_outcome(metadata_xml, files_xml, archive, options, fs).0 is Failed,
        install_outcome(metadata_xml, files_xml, archive, options, fs).1.nodes.contains_key(path),
    ensures
        kept(fs, install_outcome(metadata_xml, files_xml, archive, options, fs).1, path),
{
    let v = verified_stage(metadata_xml, files_xml, archive, options);
    lemma_verified_stage(metadata_xml, files_xml, archive, options);
    if v is Failed {
        assert(carried_out(v, fs) == (v, fs));
    } else {
        let planned_view = plan_against(v, fs);
        if planned_view is Planned {
            lemma_run_rollback(planned_view, fs, fs);
        } else {
            assert(run(planned_view, fs) == (planned_view, fs));
        }
    }
}

/// Integrity cannot be bypassed: a plan writes no item that did not verify.
pub proof fn law_unverified_items_are_not_written(
    verdicts: Seq<Verdict>,
    present: Seq<bool>,
    force: bool,
    i: int,
)
    requires
        0 <= i < verdicts.len(),
        !(verdicts[i] is Match),
    ensures
        planned(verdicts, present, force)[i] == PlanTag::Skip,
{
}

/// Whether the file at `path` was written by a step of `script` and holds the content that
/// is staged under the path.
pub open spec fn written_by(
    script: Seq<StepView>,
    staging: Map<Seq<u8>, MemberView>,
    fs: FsView,
    path: Seq<u8>,
) -> bool {
    &&& exists|k: int|
        0 <= k < script.len() && #[trigger] script[k] == (StepView::WriteFile { path })
    &&& staging.contains_key(path)
    &&& fs.nodes[path].content == staging[path].content
}

/// Whatever the target holds while a script is carried out stood there before, or is a
/// directory, or is a file that a step of the script wrote from the staging area.
proof fn lemma_run_writes(v: InstallationView, fs: FsView, origin: FsView)
    requires
        installation_wf(v),
        v is Planned,
        forall|p: Seq<u8>| #[trigger]
            fs.nodes.contains_key(p) ==> kept(origin, fs, p) || fs.nodes[p].is_dir || written_by(
                machine_of(v).script,
                staging_of(v),
                fs,
                p,
            ),
    ensures
        forall|p: Seq<u8>| #[trigger]
            run(v, fs).1.nodes.contains_key(p) ==> kept(origin, run(v, fs).1, p) || run(
                v,
                fs,
            ).1.nodes[p].is_dir || written_by(
                machine_of(v).script,
                staging_of(v),
                run(v, fs).1,
                p,
            ),
    decreases measure_of(v),
{
    let m = machine_of(v);
    let staging = staging_of(v);
    let step = next_step_of(v)->0;
    let fs2 = fs_step(fs, step, staging).0;
    let out = fs_step(fs, step, staging).1;
    let v2 = after_record(v, out);
    lemma_one_step(v, fs);
    assert(one_step(v, fs) == (v2, fs2));
    assert(run(v, fs) == run(v2, fs2));
    assert forall|p: Seq<u8>| #[trigger] fs2.nodes.contains_key(p) implies kept(origin, fs2, p)
        || fs2.nodes[p].is_dir || written_by(m.script, staging, fs2, p) by {
        if p == step_path(step) && step is WriteFile && !(out is Failed) {
            assert(m.phase == Phase::Applying);
            assert(m.script[m.pos as int] == (StepView::WriteFile { path: p }));
        } else if fs.nodes.contains_key(p) {
            if written_by(m.script, staging, fs, p) {
                let k = choose|k: int|
                    0 <= k < m.script.len() && #[trigger] m.script[k] == (StepView::WriteFile {
                        path: p,
                    });
                assert(m.script[k] == (StepView::WriteFile { path: p }));
            }
        }
    }
    if v2 is Planned {
        assert(machine_of(v2).script == m.script);
        assert(staging_of(v2) == staging);
        lemma_run_writes(v2, fs2, origin);
    } else {
        assert(run(v2, fs2) == (v2, fs2));
    }
}

/// Integrity cannot be bypassed: whatever file an install leaves in the target with other
/// content than stood there before is a declared item that verified, and its content has
/// the declared digest. This holds of installs that succeed and of installs that fail.
pub proof fn law_only_verified_content_is_written(
    metadata_xml: Seq<char>,
    files_xml: Seq<char>,
    archive: Seq<u8>,
    options: InstallOptions,
    fs: FsView,
    path: Seq<u8>,
)
    requires
        install_outcome(metadata_xml, files_xml, archive, options, fs).1.nodes.contains_key(path),
        !install_outcome(metadata_xml, files_xml, archive, options, fs).1.nodes[path].is_dir,
        !kept(fs, install_outcome(metadata_xml, files_xml, archive, options, fs).1, path),
    ensures
        ({
            let after = install_outcome(metadata_xml, files_xml, archive, options, fs).1;
            let files = files_document(utf8(files_xml))->Ok_0;
            let staging = extracted(archive)->Ok_0;
            exists|i: int|
                0 <= i < files.len() && path_of(#[trigger] files[i]) == path && verdict_of(
                    files[i],
                    staging,
                ) is Match && digest_matches(files[i].hash, sha1_of(after.nodes[path].content))
        }),
{
    let v = verified_stage(metadata_xml, files_xml, archive, options);
    lemma_verified_stage(metadata_xml, files_xml, archive, options);
    let after = install_outcome(metadata_xml, files_xml, archive, options, fs).1;
    if v is Failed {
        assert(carried_out(v, fs) == (v, fs));
    } else {
        let files = files_document(utf8(files_xml))->Ok_0;
        let staging = extracted(archive)->Ok_0;
        let verdicts = verdicts_of(files, staging);
        let tags = planned(verdicts, present_in(files, fs), options.force);
        let script = script_of(files, tags);
        let planned_view = plan_against(v, fs);
        if planned_view is Planned {
            assert(machine_of(planned_view).script == script);
            lemma_run_writes(planned_view, fs, fs);
            assert(written_by(script, staging, after, path));
            let k = choose|k: int|
                0 <= k < script.len() && #[trigger] script[k] == (StepView::WriteFile { path });
            lemma_script_writes(files, tags, k);
            let i = choose|i: int| #[trigger] writes_to(files, tags, i, path);
            assert(verdicts[i] == verdict_of(files[i], staging));
            assert(tags[i] == tag_of(verdicts[i], present_in(files, fs)[i], options.force));
            assert(path_of(files[i]) == path);
        } else {
            assert(run(planned_view, fs) == (planned_view, fs));
        }
    }
}

/// Whether the installation is applying the steps of its script.
pub open spec fn still_applying(v: InstallationView) -> bool {
    v is Planned && machine_of(v).phase == Phase::Applying
}

/// The installation and the target just before the last step of the script that was tried:
/// the step that completed the install, or the step that failed.
pub open spec fn before_last_step(v: InstallationView, fs: FsView) -> (InstallationView, FsView)
    decreases measure_of(v),
    when installation_wf(v)
    via before_last_step_decreases
{
    if still_applying(v) && still_applying(one_step(v, fs).0) {
        before_last_step(one_step(v, fs).0, one_step(v, fs).1)
    } else {
        (v, fs)
    }
}

#[via_fn]
proof fn before_last_step_decreases(v: InstallationView, fs: FsView) {
    lemma_one_step(v, fs);
}

/// Rolling back removes every path that is still listed as created, and ends with the
/// failure that began it.
proof fn lemma_rollback(v: InstallationView, fs: FsView, made: Seq<Seq<u8>>)
    requires
        installation_wf(v),
        v is Planned,
        machine_of(v).phase == Phase::RollingBack,
        machine_of(v).failure is Some,
        machine_of(v).unremoved.len() == 0,
        forall|i: int|
            0 <= i < made.len() ==> machine_of(v).created.contains(#[trigger] made[i])
                || !fs.nodes.contains_key(made[i]),
    ensures
        run(v, fs).0 == (InstallationView::Failed {
            error: InstallFault::IOError {
                path: crate::installer::failure_path(machine_of(v)),
                cause: crate::installer::failure_cause(machine_of(v)),
                unremoved: Seq::empty(),
            },
        }),
        forall|i: int| 0 <= i < made.len() ==> !run(v, fs).1.nodes.contains_key(#[trigger] made[i]),
    decreases measure_of(v),
{
    let m = machine_of(v);
    let step = next_step_of(v)->0;
    let fs2 = fs_step(fs, step, staging_of(v)).0;
    let out = fs_step(fs, step, staging_of(v)).1;
    let v2 = after_record(v, out);
    let m2 = machine_record(m, out);
    lemma_one_step(v, fs);
    assert(one_step(v, fs) == (v2, fs2));
    assert(run(v, fs) == run(v2, fs2));
    assert(m2.unremoved =~= Seq::empty());
    assert forall|i: int| 0 <= i < made.len() implies m2.created.contains(#[trigger] made[i])
        || !fs2.nodes.contains_key(made[i]) by {
        let p = made[i];
        if p != m.created.last() && m.created.contains(p) {
            let j = choose|j: int| 0 <= j < m.created.len() && m.created[j] == p;
            assert(m2.created[j] == p);
        }
    }
    if v2 is Planned {
        assert(machine_of(v2) == m2);
        lemma_rollback(v2, fs2, made);
    } else {
        assert(run(v2, fs2) == (v2, fs2));
        assert(m2.created.len() == 0);
    }
}

/// Where carrying out a script ends failed, the error names the path of the step that
/// failed and the cause that the target gave, no created path is left unremoved, and none
/// of the paths created before that step is left in the target.
proof fn lemma_run_failure(v: InstallationView, fs: FsView)
    requires
        installation_wf(v),
        still_applying(v),
        machine_of(v).failure is None,
        machine_of(v).unremoved.len() == 0,
    ensures
        run(v, fs).0 is Failed ==> ({
            let last = before_last_step(v, fs);
            let step = next_step_of(last.0)->0;
            &&& still_applying(last.0)
            &&& machine_of(last.0).script == machine_of(v).script
            &&& staging_of(last.0) == staging_of(v)
            &&& 0 <= machine_of(last.0).pos < machine_of(v).script.len()
            &&& step == machine_of(v).script[machine_of(last.0).pos as int]
            &&& fs_step(last.1, step, staging_of(v)).1 is Failed
            &&& run(v, fs).0 == (InstallationView::Failed {
                error: InstallFault::IOError {
                    path: step_path(step),
                    cause: fs_step(last.1, step, staging_of(v)).1->Failed_0,
                    unremoved: Seq::empty(),
                },
            })
            &&& forall|i: int|
                0 <= i < machine_of(last.0).created.len() ==> !run(v, fs).1.nodes.contains_key(
                    #[trigger] machine_of(last.0).created[i],
                )
        }),
    decreases measure_of(v),
{
    let m = machine_of(v);
    let step = next_step_of(v)->0;
    let fs2 = fs_step(fs, step, staging_of(v)).0;
    let out = fs_step(fs, step, staging_of(v)).1;
    let v2 = after_record(v, out);
    let m2 = machine_record(m, out);
    lemma_one_step(v, fs);
    assert(one_step(v, fs) == (v2, fs2));
    assert(run(v, fs) == run(v2, fs2));
    if still_applying(v2) {
        assert(machine_of(v2) == m2);
        assert(m2.unremoved =~= m.unremoved);
        assert(before_last_step(v, fs) == before_last_step(v2, fs2));
        lemma_run_failure(v2, fs2);
    } else {
        assert(before_last_step(v, fs) == (v, fs));
        if v2 is Planned {
            assert(machine_of(v2) == m2);
            assert(fs2 == fs);
            lemma_rollback(v2, fs2, m.created);
        } else {
            assert(run(v2, fs2) == (v2, fs2));
            if v2 is Failed {
                assert(m2.unremoved =~= Seq::empty());
            }
        }
    }
}

/// Rollback completeness, by the step that failed: where an install fails while its plan is
/// carried out, the error names the path of the step that failed, which is the path of a
/// declared item that verified or of a directory above it, and the cause that the target
/// gave; no created path is left unremoved; and none of the paths that were written or
/// made before that step, overwritten ones included, is left in the target.
pub proof fn law_failed_step_is_named_and_undone(
    metadata_xml: Seq<char>,
    files_xml: Seq<char>,
    archive: Seq<u8>,
    options: InstallOptions,
    fs: FsView,
)
    requires
        install_outcome(metadata_xml, files_xml, archive, options, fs).0 matches InstallationView::Failed {
            error,
        } && error is IOError,
    ensures
        ({
            let end = install_outcome(metadata_xml, files_xml, archive, options, fs);
            let files = files_document(utf8(files_xml))->Ok_0;
            let staging = extracted(archive)->Ok_0;
            let last = before_last_step(
                plan_against(verified_stage(metadata_xml, files_xml, archive, options), fs),
                fs,
            );
            let step = next_step_of(last.0)->0;
            &&& still_applying(last.0)
            &&& fs_step(last.1, step, staging).1 is Failed
            &&& end.0 == (InstallationView::Failed {
                error: InstallFault::IOError {
                    path: step_path(step),
                    cause: fs_step(last.1, step, staging).1->Failed_0,
                    unremoved: Seq::empty(),
                },
            })
            &&& forall|i: int|
                0 <= i < machine_of(last.0).created.len() ==> !end.1.nodes.contains_key(
                    #[trigger] machine_of(last.0).created[i],
                )
            &&& exists|i: int|
                0 <= i < files.len() && verdict_of(#[trigger] files[i], staging) is Match && (
                step_path(step) == path_of(files[i]) || crate::plan::parents(
                    path_of(files[i]),
                ).contains(step_path(step)))
        }),
{
    let v = verified_stage(metadata_xml, files_xml, archive, options);
    lemma_verified_stage(metadata_xml, files_xml, archive, options);
    if v is Failed {
        assert(carried_out(v, fs) == (v, fs));
    } else {
        let files = files_document(utf8(files_xml))->Ok_0;
        let staging = extracted(archive)->Ok_0;
        let verdicts = verdicts_of(files, staging);
        let tags = planned(verdicts, present_in(files, fs), options.force);
        let script = script_of(files, tags);
        let planned_view = plan_against(v, fs);
        if planned_view is Planned {
            assert(machine_of(planned_view) == machine_start(script));
            lemma_run_failure(planned_view, fs);
            let last = before_last_step(planned_view, fs);
            let k = machine_of(last.0).pos as int;
            lemma_script_serves(files, tags, k);
            let i = choose|i: int| #[trigger] serves(files, tags, i, step_path(script[k]));
            assert(verdicts[i] == verdict_of(files[i], staging));
            assert(tags[i] == tag_of(verdicts[i], present_in(files, fs)[i], options.force));
        } else {
            assert(run(planned_view, fs) == (planned_view, fs));
        }
    }
}

/// The bytes of content that the steps of `script` from `pos` on write.
pub open spec fn bytes_to_write(
    script: Seq<StepView>,
    staging: Map<Seq<u8>, MemberView>,
    pos: int,
) -> nat
    decreases script.len() - pos,
{
    if pos < 0 || pos >= script.len() {
        0
    } else {
        let here: nat = match script[pos] {
            StepView::WriteFile { path } => staging[path].content.len(),
            _ => 0,
        };
        here + bytes_to_write(script, staging, pos + 1)
    }
}

/// Whether nothing stands in the way of `script` on the target: no path is both made a
/// directory and written as a file, no path that is to be a directory holds a file, and no
/// path that is to be written holds a directory.
pub open spec fn unobstructed(script: Seq<StepView>, fs: FsView) -> bool {
    &&& forall|a: int, b: int|
        0 <= a < script.len() && 0 <= b < script.len() && #[trigger] script[a] is EnsureDir
            && #[trigger] script[b] is WriteFile ==> step_path(script[a]) != step_path(script[b])
    &&& forall|k: int|
        0 <= k < script.len() && #[trigger] script[k] is EnsureDir && fs.nodes.contains_key(
            step_path(script[k]),
        ) ==> fs.nodes[step_path(script[k])].is_dir
    &&& forall|k: int|
        0 <= k < script.len() && #[trigger] script[k] is WriteFile && fs.nodes.contains_key(
            step_path(script[k]),
        ) ==> !fs.nodes[step_path(script[k])].is_dir
}

/// Carrying out an orderly script that nothing stands in the way of, and for whose content
/// the target has room, ends installed.
proof fn lemma_run_succeeds(v: InstallationView, fs: FsView)
    requires
        installation_wf(v),
        v is Planned,
        machine_of(v).phase == Phase::Applying,
        orderly(machine_of(v).script),
        unobstructed(machine_of(v).script, fs),
        forall|k: int|
            0 <= k < machine_of(v).script.len() && #[trigger] machine_of(v).script[k] is WriteFile
                ==> staging_of(v).contains_key(step_path(machine_of(v).script[k])),
        bytes_to_write(machine_of(v).script, staging_of(v), machine_of(v).pos as int) <= fs.free,
        machine_of(v).pos > 0 && is_placing(machine_of(v).script[machine_of(v).pos - 1])
            ==> fs.nodes.contains_key(step_path(machine_of(v).script[machine_of(v).pos - 1])),
    ensures
        run(v, fs).0 is Installed,
    decreases measure_of(v),
{
    let m = machine_of(v);
    let script = m.script;
    let staging = staging_of(v);
    let pos = m.pos as int;
    let step = script[pos];
    let fs2 = fs_step(fs, step, staging).0;
    let out = fs_step(fs, step, staging).1;
    let v2 = after_record(v, out);
    assert(next_step_of(v) == Some(step));
    assert(!(step is Remove));
    assert(bytes_to_write(script, staging, pos) >= bytes_to_write(script, staging, pos + 1));
    assert(!(out is Failed));
    assert(unobstructed(script, fs2)) by {
        assert forall|k: int|
            0 <= k < script.len() && #[trigger] script[k] is EnsureDir && fs2.nodes.contains_key(
                step_path(script[k]),
            ) implies fs2.nodes[step_path(script[k])].is_dir by {
            if step is WriteFile {
                assert(step_path(script[k]) != step_path(script[pos]));
            }
        }
        assert forall|k: int|
            0 <= k < script.len() && #[trigger] script[k] is WriteFile && fs2.nodes.contains_key(
                step_path(script[k]),
            ) implies !fs2.nodes[step_path(script[k])].is_dir by {
            if step is EnsureDir {
                assert(step_path(script[pos]) != step_path(script[k]));
            }
        }
    }
    lemma_one_step(v, fs);
    assert(one_step(v, fs) == (v2, fs2));
    assert(run(v, fs) == run(v2, fs2));
    if v2 is Planned {
        assert(machine_of(v2).script == script);
        assert(staging_of(v2) == staging);
        assert(machine_of(v2).pos == pos + 1);
        lemma_run_succeeds(v2, fs2);
    } else {
        assert(run(v2, fs2) == (v2, fs2));
    }
}

/// The plan that creates every one of `n` items.
pub open spec fn create_all(n: nat) -> Seq<PlanTag> {
    Seq::new(n, |i: int| PlanTag::Create)
}

/// When an install succeeds: where both documents parse and the archive extracts, every
/// declared item verifies, no declared path exists in the target unless overwriting is
/// forced, nothing stands in the way of the steps, and the target has room for the content
/// that they write, the install ends installed.
pub proof fn law_install_succeeds(
    metadata_xml: Seq<char>,
    files_xml: Seq<char>,
    archive: Seq<u8>,
    options: InstallOptions,
    fs: FsView,
)
    requires
        metadata_document(utf8(metadata_xml)) is Ok,
        files_document(utf8(files_xml)) is Ok,
        extracted(archive) is Ok,
        forall|i: int|
            0 <= i < files_document(utf8(files_xml))->Ok_0.len() ==> #[trigger] verdict_of(
                files_document(utf8(files_xml))->Ok_0[i],
                extracted(archive)->Ok_0,
            ) is Match,
        options.force || forall|i: int|
            0 <= i < files_document(utf8(files_xml))->Ok_0.len() ==> !fs.nodes.contains_key(
                path_of(#[trigger] files_document(utf8(files_xml))->Ok_0[i]),
            ),
        unobstructed(
            script_of(
                files_document(utf8(files_xml))->Ok_0,
                create_all(files_document(utf8(files_xml))->Ok_0.len()),
            ),
            fs,
        ),
        bytes_to_write(
            script_of(
                files_document(utf8(files_xml))->Ok_0,
                create_all(files_document(utf8(files_xml))->Ok_0.len()),
            ),
            extracted(archive)->Ok_0,
            0,
        ) <= fs.free,
    ensures
        install_outcome(metadata_xml, files_xml, archive, options, fs).0 is Installed,
{
    let files = files_document(utf8(files_xml))->Ok_0;
    let staging = extracted(archive)->Ok_0;
    let verdicts = verdicts_of(files, staging);
    let hit = |k: int| !(verdicts[k] is Match);
    assert forall|k: int| 0 <= k < verdicts.len() implies !#[trigger] hit(k) by {
        assert(verdict_of(files[k], staging) is Match);
    }
    lemma_first_where(verdicts.len(), hit);
    let v = verified_stage(metadata_xml, files_xml, archive, options);
    assert(v is Verified);
    let tags = planned(verdicts, present_in(files, fs), options.force);
    assert(tags =~= create_all(files.len())) by {
        assert forall|k: int| 0 <= k < tags.len() implies tags[k] == PlanTag::Create by {
            assert(verdict_of(files[k], staging) is Match);
            if !options.force {
                assert(!fs.nodes.contains_key(path_of(files[k])));
            }
        }
    }
    lemma_first_where(tags.len(), |k: int| tags[k] == PlanTag::Conflict);
    let script = script_of(files, tags);
    lemma_script_orderly(files, tags);
    let planned_view = after_plan(v, present_in(files, fs));
    if script.len() == 0 {
        assert(run(planned_view, fs) == (planned_view, fs));
    } else {
        assert(machine_of(planned_view) == machine_start(script));
        assert forall|k: int| 0 <= k < script.len() && #[trigger] script[k] is WriteFile implies staging.contains_key(
            step_path(script[k]),
        ) by {
            lemma_script_writes(files, tags, k);
            let i = choose|i: int| #[trigger] writes_to(files, tags, i, step_path(script[k]));
            assert(verdict_of(files[i], staging) is Match);
        }
        lemma_run_succeeds(planned_view, fs);
    }
}

/// The stages follow one another in order: each transition leads to the next stage or to
/// `Failed`, planning with findings that are not as many as the declared items changes
/// nothing, and an installation that has ended stays as it is.
pub proof fn law_stages_follow_in_order(v: InstallationView, present: Seq<bool>, outcome: Outcome)
    requires
        installation_wf(v),
    ensures
        stage_of(v) == Stage::Loaded ==> stage_of(after_advance(v)) == Stage::ManifestParsed
            || stage_of(after_advance(v)) == Stage::Failed,
        stage_of(v) == Stage::ManifestParsed ==> stage_of(after_advance(v)) == Stage::Extracted
            || stage_of(after_advance(v)) == Stage::Failed,
        stage_of(v) == Stage::Extracted ==> stage_of(after_advance(v)) == Stage::Verified
            || stage_of(after_advance(v)) == Stage::Failed,
        v matches InstallationView::Verified { files, .. } && present.len() == files.len()
            ==> stage_of(after_plan(v, present)) == Stage::Planned || stage_of(
            after_plan(v, present),
        ) == Stage::Installed || stage_of(after_plan(v, present)) == Stage::Failed,
        v matches InstallationView::Verified { files, .. } && present.len() != files.len()
            ==> after_plan(v, present) == v,
        stage_of(v) == Stage::Planned ==> stage_of(after_record(v, outcome)) == Stage::Planned
            || stage_of(after_record(v, outcome)) == Stage::Installed || stage_of(
            after_record(v, outcome),
        ) == Stage::Failed,
        stage_of(v) != Stage::Verified ==> after_plan(v, present) == v,
        stage_of(v) != Stage::Planned ==> after_record(v, outcome) == v,
        stage_of(v) == Stage::Installed || stage_of(v) == Stage::Failed ==> after_advance(v) == v,
{
}

} // verus!
