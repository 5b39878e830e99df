//! The install engine: an installation moves from the loaded bundle through parsing,
//! extraction, verification and planning to the carrying out of its plan, and ends
//! installed or failed.

use crate::archive::{extracted, ArchiveError, ArchiveFault, MemberView, StagingArea};
use crate::error::{ParseError, ParseFault};
use crate::integrity::{
    verdicts_of, verdicts_view, verify_all, Policy, VerificationResult, Verdict,
};
use crate::machine::{
    lemma_record, machine_measure, machine_next, machine_record, machine_start, machine_wf,
    paths_view, Machine, MachineView, Phase,
};
use crate::parser::{
    files_document, metadata_document, parse_files_xml, parse_metadata_xml, path_of, FileView,
    Files, Metadata, MetadataView,
};
use crate::plan::{build_plan, build_script, first_conflict, planned, script_of, InstallPlan, PlanTag};
use crate::search::{first_where, lemma_first_where, lemma_first_where_is};
use crate::target::{fs_step, FsView, IoCause, Outcome, Step, StepView, TargetFs};
use crate::text::utf8;
use vstd::prelude::*;
use vstd::string::*;

verus! {

/// What the caller chooses for one install.
#[derive(Clone, Copy, Debug, PartialEq, Eq)]
pub struct InstallOptions {
    /// Overwrite paths that exist in the target.
    pub force: bool,
    /// What to do when an item fails verification.
    pub policy: Policy,
}

impl Default for InstallOptions {
    /// No overwriting, and strict verification.
    fn default() -> (r: InstallOptions)
        ensures
            r == (InstallOptions { force: false, policy: Policy::Strict }),
    {
        InstallOptions { force: false, policy: Policy::Strict }
    }
}

/// The stages of an installation.
#[derive(Clone, Copy, Debug, PartialEq, Eq, Structural)]
pub enum Stage {
    Loaded,
    ManifestParsed,
    Extracted,
    Verified,
    Planned,
    Installed,
    Failed,
}

/// A parsed bundle: the package's metadata, its declared files, and its content archive.
#[derive(Clone, Debug, PartialEq, Eq)]
pub struct PackageBundle {
    pub metadata: Metadata,
    pub files: Files,
    pub archive: Vec<u8>,
}

/// What a successful install reports: the package, the verdict and the tag of each declared
/// item, and the paths whose owner, group or permission bits could not be applied.
#[derive(Clone, Debug, PartialEq, Eq)]
pub struct InstallReport {
    pub package: Metadata,
    pub verdicts: Vec<VerificationResult>,
    pub plan: InstallPlan,
    pub unapplied: Vec<Vec<u8>>,
}

/// The view of an [`InstallReport`].
pub struct ReportView {
    pub package: MetadataView,
    pub verdicts: Seq<Verdict>,
    pub tags: Seq<PlanTag>,
    pub unapplied: Seq<Seq<u8>>,
}

impl View for InstallReport {
    type V = ReportView;

    open spec fn view(&self) -> ReportView {
        ReportView {
            package: self.package@,
            verdicts: verdicts_view(self.verdicts@),
            tags: self.plan@,
            unapplied: paths_view(self.unapplied@),
        }
    }
}

/// Why an install failed.
#[derive(Clone, Debug, PartialEq, Eq)]
pub enum InstallError {
    /// A descriptor document is malformed or incomplete.
    ParseError(ParseError),
    /// The archive is corrupt or cut short, holds a sparse file, or holds a path that leaves
    /// the staging root.
    ArchiveError(ArchiveError),
    /// Under the strict policy, the first declared item that did not verify.
    IntegrityError { index: usize, path: String, verdict: VerificationResult },
    /// The first declared item whose path exists in the target, where overwriting is not
    /// forced.
    ConflictError { index: usize, path: String },
    /// A step failed while the plan was carried out; what had been created was removed
    /// again, but for the paths in `unremoved`.
    IOError { path: Vec<u8>, cause: IoCause, unremoved: Vec<Vec<u8>> },
}

/// The view of an [`InstallError`].
pub enum InstallFault {
    ParseError(ParseFault),
    ArchiveError(ArchiveFault),
    IntegrityError { index: nat, path: Seq<char>, verdict: Verdict },
    ConflictError { index: nat, path: Seq<char> },
    IOError { path: Seq<u8>, cause: IoCause, unremoved: Seq<Seq<u8>> },
}

impl View for InstallError {
    type V = InstallFault;

    open spec fn view(&self) -> InstallFault {
        match self {
            InstallError::ParseError(e) => InstallFault::ParseError(e@),
            InstallError::ArchiveError(e) => InstallFault::ArchiveError(e@),
            InstallError::IntegrityError { index, path, verdict } => InstallFault::IntegrityError {
                index: *index as nat,
                path: path@,
                verdict: verdict@,
            },
            InstallError::ConflictError { index, path } => InstallFault::ConflictError {
                index: *index as nat,
                path: path@,
            },
            InstallError::IOError { path, cause, unremoved } => InstallFault::IOError {
                path: path@,
                cause: *cause,
                unremoved: paths_view(unremoved@),
            },
        }
    }
}

/// An installation as the contracts see it: its stage, with what the stage holds.
pub enum InstallationView {
    Loaded { options: InstallOptions, metadata_xml: Seq<char>, files_xml: Seq<char>, archive: Seq<u8> },
    ManifestParsed {
        options: InstallOptions,
        metadata: MetadataView,
        files: Seq<FileView>,
        archive: Seq<u8>,
    },
    Extracted {
        options: InstallOptions,
        metadata: MetadataView,
        files: Seq<FileView>,
        staging: Map<Seq<u8>, MemberView>,
    },
    Verified {
        options: InstallOptions,
        metadata: MetadataView,
        files: Seq<FileView>,
        staging: Map<Seq<u8>, MemberView>,
        verdicts: Seq<Verdict>,
    },
    Planned {
        metadata: MetadataView,
        files: Seq<FileView>,
        staging: Map<Seq<u8>, MemberView>,
        verdicts: Seq<Verdict>,
        tags: Seq<PlanTag>,
        machine: MachineView,
    },
    Installed { report: ReportView },
    Failed { error: InstallFault },
}

/// The stage of an installation.
pub open spec fn stage_of(v: InstallationView) -> Stage {
    match v {
        InstallationView::Loaded { .. } => Stage::Loaded,
        InstallationView::ManifestParsed { .. } => Stage::ManifestParsed,
        InstallationView::Extracted { .. } => Stage::Extracted,
        InstallationView::Verified { .. } => Stage::Verified,
        InstallationView::Planned { .. } => Stage::Planned,
        InstallationView::Installed { .. } => Stage::Installed,
        InstallationView::Failed { .. } => Stage::Failed,
    }
}

/// The first item that did not verify.
pub open spec fn first_failure(verdicts: Seq<Verdict>) -> Option<int> {
    first_where(verdicts.len(), |i: int| !(verdicts[i] is Match))
}

/// The installation after the next stage that needs nothing from outside: the parsing of
/// the two documents, the extraction of the archive, or the verification of the staged
/// items. From any other stage nothing changes.
pub open spec fn after_advance(v: InstallationView) -> InstallationView {
    match v {
        InstallationView::Loaded { options, metadata_xml, files_xml, archive } => {
            match metadata_document(utf8(metadata_xml)) {
                Err(e) => InstallationView::Failed { error: InstallFault::ParseError(e) },
                Ok(metadata) => match files_document(utf8(files_xml)) {
                    Err(e) => InstallationView::Failed { error: InstallFault::ParseError(e) },
                    Ok(files) => InstallationView::ManifestParsed {
                        options,
                        metadata,
                        files,
                        archive,
                    },
                },
            }
        },
        InstallationView::ManifestParsed { options, metadata, files, archive } => {
            match extracted(archive) {
                Err(e) => InstallationView::Failed { error: InstallFault::ArchiveError(e) },
                Ok(staging) => InstallationView::Extracted { options, metadata, files, staging },
            }
        },
        InstallationView::Extracted { options, metadata, files, staging } => {
            let verdicts = verdicts_of(files, staging);
            match first_failure(verdicts) {
                Some(i) => if options.policy == Policy::Strict {
                    InstallationView::Failed {
                        error: InstallFault::IntegrityError {
                            index: i as nat,
                            path: files[i].path,
                            verdict: verdicts[i],
                        },
                    }
                } else {
                    InstallationView::Verified { options, metadata, files, staging, verdicts }
                },
                None => InstallationView::Verified { options, metadata, files, staging, verdicts },
            }
        },
        _ => v,
    }
}

/// A planned installation whose machine has come to an end is installed or failed.
pub open spec fn settled(v: InstallationView) -> InstallationView {
    match v {
        InstallationView::Planned { metadata, files, staging, verdicts, tags, machine } => {
            match machine.phase {
                Phase::Installed => InstallationView::Installed {
                    report: ReportView {
                        package: metadata,
                        verdicts,
                        tags,
                        unapplied: machine.unapplied,
                    },
                },
                Phase::Failed => InstallationView::Failed {
                    error: InstallFault::IOError {
                        path: failure_path(machine),
                        cause: failure_cause(machine),
                        unremoved: machine.unremoved,
                    },
                },
                _ => v,
            }
        },
        _ => v,
    }
}

/// The path of a machine's fatal failure.
pub open spec fn failure_path(m: MachineView) -> Seq<u8> {
    match m.failure {
        Some((path, _)) => path,
        None => Seq::empty(),
    }
}

/// The cause of a machine's fatal failure.
pub open spec fn failure_cause(m: MachineView) -> IoCause {
    match m.failure {
        Some((_, cause)) => cause,
        None => IoCause::Other,
    }
}

/// The installation after planning, given for each declared item whether its path exists
/// in the target. The first conflict fails the installation; without one the machine
/// starts on the plan's script. From any stage but `Verified` nothing changes, and nothing
/// changes where the findings are not as many as the declared items.
pub open spec fn after_plan(v: InstallationView, present: Seq<bool>) -> InstallationView {
    match v {
        InstallationView::Verified { options, metadata, files, staging, verdicts } => if present.len()
            != verdicts.len() {
            v
        } else {
            let tags = planned(verdicts, present, options.force);
            match first_conflict(tags) {
                Some(i) => InstallationView::Failed {
                    error: InstallFault::ConflictError { index: i as nat, path: files[i].path },
                },
                None => settled(
                    InstallationView::Planned {
                        metadata,
                        files,
                        staging,
                        verdicts,
                        tags,
                        machine: machine_start(script_of(files, tags)),
                    },
                ),
            }
        },
        _ => v,
    }
}

/// The step that the installation asks the target for, if it asks for one.
pub open spec fn next_step_of(v: InstallationView) -> Option<StepView> {
    match v {
        InstallationView::Planned { machine, .. } => machine_next(machine),
        _ => None,
    }
}

/// The installation after the target's answer to the step that it asked for.
pub open spec fn after_record(v: InstallationView, outcome: Outcome) -> InstallationView {
    match v {
        InstallationView::Planned { metadata, files, staging, verdicts, tags, machine } => settled(
            InstallationView::Planned {
                metadata,
                files,
                staging,
                verdicts,
                tags,
                machine: machine_record(machine, outcome),
            },
        ),
        _ => v,
    }
}

/// A verified installation has a verdict for each declared item; a planned installation
/// has a well-formed machine that still asks for steps.
pub open spec fn installation_wf(v: InstallationView) -> bool {
    match v {
        InstallationView::Verified { files, verdicts, .. } => verdicts.len() == files.len(),
        InstallationView::Planned { machine, .. } => machine_wf(machine) && (machine.phase
            == Phase::Applying || machine.phase == Phase::RollingBack),
        _ => true,
    }
}

/// How many answers the installation can still take, at most.
pub open spec fn measure_of(v: InstallationView) -> nat {
    match v {
        InstallationView::Planned { machine, .. } => machine_measure(machine),
        _ => 0,
    }
}

/// The staged content of an installation.
pub open spec fn staging_of(v: InstallationView) -> Map<Seq<u8>, MemberView> {
    match v {
        InstallationView::Extracted { staging, .. } => staging,
        InstallationView::Verified { staging, .. } => staging,
        InstallationView::Planned { staging, .. } => staging,
        _ => Map::empty(),
    }
}

/// Each answer keeps the installation well formed and brings it nearer to its end.
pub proof fn lemma_after_record(v: InstallationView, outcome: Outcome)
    requires
        installation_wf(v),
    ensures
        installation_wf(after_record(v, outcome)),
        next_step_of(v) is Some ==> measure_of(after_record(v, outcome)) < measure_of(v),
{
    match v {
        InstallationView::Planned { machine, .. } => {
            lemma_record(machine, outcome);
        },
        _ => {},
    }
}

/// The installation and the target after one step: the step that the installation asks
/// for is done on the target, and the target's answer is given back.
pub open spec fn one_step(v: InstallationView, fs: FsView) -> (InstallationView, FsView) {
    match next_step_of(v) {
        None => (v, fs),
        Some(step) => {
            let (changed, outcome) = fs_step(fs, step, staging_of(v));
            (after_record(v, outcome), changed)
        },
    }
}

/// The installation and the target after the plan was carried out on a target in memory:
/// one step after the other, until the installation asks for no more.
pub open spec fn run(v: InstallationView, fs: FsView) -> (InstallationView, FsView)
    decreases measure_of(v),
    when installation_wf(v)
    via run_decreases
{
    if next_step_of(v) is None {
        (v, fs)
    } else {
        run(one_step(v, fs).0, one_step(v, fs).1)
    }
}

#[via_fn]
proof fn run_decreases(v: InstallationView, fs: FsView) {
    lemma_one_step(v, fs);
}

/// Each step keeps the installation well formed and brings it nearer to its end.
pub proof fn lemma_one_step(v: InstallationView, fs: FsView)
    requires
        installation_wf(v),
    ensures
        installation_wf(one_step(v, fs).0),
        next_step_of(v) is Some ==> measure_of(one_step(v, fs).0) < measure_of(v),
{
    match next_step_of(v) {
        None => {},
        Some(step) => {
            let (changed, outcome) = fs_step(fs, step, staging_of(v));
            lemma_after_record(v, outcome);
        },
    }
}

/// For each declared item, whether its path exists in the target.
pub open spec fn present_in(files: Seq<FileView>, fs: FsView) -> Seq<bool> {
    Seq::new(files.len(), |i: int| fs.nodes.contains_key(path_of(files[i])))
}

/// The installation after planning against a target in memory and carrying the plan out on
/// it, with the target as it then is. Before the `Verified` stage, and after it, nothing
/// changes.
pub open spec fn carried_out(v: InstallationView, fs: FsView) -> (InstallationView, FsView) {
    match v {
        InstallationView::Verified { files, .. } => run(after_plan(v, present_in(files, fs)), fs),
        _ => (v, fs),
    }
}

/// A whole install on a target in memory: the end of the installation, and the target as
/// it then is.
pub open spec fn install_outcome(
    metadata_xml: Seq<char>,
    files_xml: Seq<char>,
    archive: Seq<u8>,
    options: InstallOptions,
    fs: FsView,
) -> (InstallationView, FsView) {
    let loaded = InstallationView::Loaded { options, metadata_xml, files_xml, archive };
    carried_out(after_advance(after_advance(after_advance(loaded))), fs)
}

/// What an installation that has ended reports.
pub open spec fn result_of(v: InstallationView) -> Option<Result<ReportView, InstallFault>> {
    match v {
        InstallationView::Installed { report } => Some(Ok(report)),
        InstallationView::Failed { error } => Some(Err(error)),
        _ => None,
    }
}

/// The view of the result of an install.
pub open spec fn result_view(r: Result<InstallReport, InstallError>) -> Result<
    ReportView,
    InstallFault,
> {
    match r {
        Ok(report) => Ok(report@),
        Err(e) => Err(e@),
    }
}

enum State {
    Loaded { options: InstallOptions, metadata_xml: String, files_xml: String, archive: Vec<u8> },
    ManifestParsed { options: InstallOptions, bundle: PackageBundle },
    Extracted { options: InstallOptions, metadata: Metadata, files: Files, staging: StagingArea },
    Verified {
        options: InstallOptions,
        metadata: Metadata,
        files: Files,
        staging: StagingArea,
        verdicts: Vec<VerificationResult>,
    },
    Planned {
        metadata: Metadata,
        files: Files,
        staging: StagingArea,
        verdicts: Vec<VerificationResult>,
        plan: InstallPlan,
        machine: Machine,
    },
    Installed { report: InstallReport },
    Failed { error: InstallError },
}

/// One install, from the loaded bundle to its end. Each method takes the installation and
/// hands back the installation that follows.
pub struct Installation {
    state: State,
}

impl View for Installation {
    type V = InstallationView;

    closed spec fn view(&self) -> InstallationView {
        match self.state {
            State::Loaded { options, metadata_xml, files_xml, archive } => InstallationView::Loaded {
                options,
                metadata_xml: metadata_xml@,
                files_xml: files_xml@,
                archive: archive@,
            },
            State::ManifestParsed { options, bundle } => InstallationView::ManifestParsed {
                options,
                metadata: bundle.metadata@,
                files: bundle.files@,
                archive: bundle.archive@,
            },
            State::Extracted { options, metadata, files, staging } => InstallationView::Extracted {
                options,
                metadata: metadata@,
                files: files@,
                staging: staging@,
            },
            State::Verified { options, metadata, files, staging, verdicts } => InstallationView::Verified {
                options,
                metadata: metadata@,
                files: files@,
                staging: staging@,
                verdicts: verdicts_view(verdicts@),
            },
            State::Planned { metadata, files, staging, verdicts, plan, machine } => InstallationView::Planned {
                metadata: metadata@,
                files: files@,
                staging: staging@,
                verdicts: verdicts_view(verdicts@),
                tags: plan@,
                machine: machine@,
            },
            State::Installed { report } => InstallationView::Installed { report: report@ },
            State::Failed { error } => InstallationView::Failed { error: error@ },
        }
    }
}

fn find_failure(verdicts: &[VerificationResult]) -> (r: Option<usize>)
    ensures
        match r {
            Some(i) => i < verdicts@.len() && first_failure(verdicts_view(verdicts@)) == Some(
                i as int,
            ),
            None => first_failure(verdicts_view(verdicts@)) is None,
        },
{
    let ghost all = verdicts_view(verdicts@);
    let ghost hit = |i: int| !(all[i] is Match);
    let mut i: usize = 0;
    while i < verdicts.len()
        invariant
            i <= verdicts@.len(),
            all == verdicts_view(verdicts@),
            hit == (|i: int| !(all[i] is Match)),
            forall|k: int| 0 <= k < i ==> !#[trigger] hit(k),
        decreases verdicts@.len() - i,
    {
        if !verdicts[i].is_match() {
            proof {
                lemma_first_where_is(all.len(), hit, i as int);
            }
            return Some(i);
        }
        i += 1;
    }
    proof {
        lemma_first_where(all.len(), hit);
    }
    None
}

fn failed(error: InstallError) -> (r: Installation)
    ensures
        r@ == (InstallationView::Failed { error: error@ }),
{
    Installation { state: State::Failed { error } }
}

fn settle(
    metadata: Metadata,
    files: Files,
    staging: StagingArea,
    verdicts: Vec<VerificationResult>,
    plan: InstallPlan,
    machine: Machine,
) -> (r: Installation)
    requires
        machine_wf(machine@),
    ensures
        r@ == settled(
            InstallationView::Planned {
                metadata: metadata@,
                files: files@,
                staging: staging@,
                verdicts: verdicts_view(verdicts@),
                tags: plan@,
                machine: machine@,
            },
        ),
{
    match machine.phase() {
        Phase::Installed => {
            let unapplied = machine.unapplied();
            Installation {
                state: State::Installed {
                    report: InstallReport { package: metadata, verdicts, plan, unapplied },
                },
            }
        },
        Phase::Failed => {
            let unremoved = machine.unremoved();
            let (path, cause) = match machine.failure() {
                Some((path, cause)) => (path, cause),
                None => (Vec::new(), IoCause::Other),
            };
            failed(InstallError::IOError { path, cause, unremoved })
        },
        _ => Installation {
            state: State::Planned { metadata, files, staging, verdicts, plan, machine },
        },
    }
}

fn probe(files: &Files, target: &TargetFs) -> (present: Vec<bool>)
    ensures
        present@ == present_in(files@, target@),
{
    let mut present: Vec<bool> = Vec::new();
    let mut i: usize = 0;
    while i < files.File.len()
        invariant
            i <= files.File@.len(),
            present@.len() == i,
            forall|k: int|
                0 <= k < i ==> #[trigger] present@[k] == target@.nodes.contains_key(
                    path_of(files@[k]),
                ),
        decreases files.File@.len() - i,
    {
        assert(files@[i as int] == files.File@[i as int]@);
        present.push(target.contains(files.File[i].path_bytes()));
        i += 1;
    }
    assert(present@ =~= present_in(files@, target@));
    present
}

impl Installation {
    #[verifier::type_invariant]
    spec fn well_formed(&self) -> bool {
        installation_wf(self@)
    }

    /// An installation of the bundle that the two documents and the archive make up.
    pub fn load(metadata_xml: String, files_xml: String, archive: Vec<u8>, options: InstallOptions) -> (r:
        Installation)
        ensures
            r@ == (InstallationView::Loaded {
                options,
                metadata_xml: metadata_xml@,
                files_xml: files_xml@,
                archive: archive@,
            }),
    {
        Installation { state: State::Loaded { options, metadata_xml, files_xml, archive } }
    }

    /// The stage of the installation.
    pub fn stage(&self) -> (r: Stage)
        ensures
            r == stage_of(self@),
            installation_wf(self@),
    {
        proof {
            use_type_invariant(self);
        }
        match &self.state {
            State::Loaded { .. } => Stage::Loaded,
            State::ManifestParsed { .. } => Stage::ManifestParsed,
            State::Extracted { .. } => Stage::Extracted,
            State::Verified { .. } => Stage::Verified,
            State::Planned { .. } => Stage::Planned,
            State::Installed { .. } => Stage::Installed,
            State::Failed { .. } => Stage::Failed,
        }
    }

    /// The declared items whose paths are to be looked up in the target before planning:
    /// those of an installation that stands at `Verified`.
    pub fn files_to_probe(&self) -> (r: Option<&Files>)
        ensures
            match r {
                Some(files) => self@ matches InstallationView::Verified { files: listed, .. }
                    && files@ == listed,
                None => !(self@ is Verified),
            },
    {
        match &self.state {
            State::Verified { files, .. } => Some(files),
            _ => None,
        }
    }

    /// The content that is staged under `path`, for the step that writes it.
    pub fn staged_content(&self, path: &[u8]) -> (r: Option<&Vec<u8>>)
        ensures
            match r {
                Some(content) => staging_of(self@).contains_key(path@) && content@ == staging_of(
                    self@,
                )[path@].content,
                None => !staging_of(self@).contains_key(path@),
            },
    {
        let staging = match &self.state {
            State::Extracted { staging, .. } => staging,
            State::Verified { staging, .. } => staging,
            State::Planned { staging, .. } => staging,
            _ => {
                return None;
            },
        };
        match staging.get(path) {
            Some(member) => Some(&member.content),
            None => None,
        }
    }

    /// Takes the installation through its next stage: see [`after_advance`].
    pub fn advance(self) -> (next: Installation)
        ensures
            next@ == after_advance(self@),
    {
        proof {
            use_type_invariant(&self);
        }
        match self.state {
            State::Loaded { options, metadata_xml, files_xml, archive } => {
                let metadata = match parse_metadata_xml(metadata_xml.as_str()) {
                    Ok(m) => m,
                    Err(e) => {
                        return failed(InstallError::ParseError(e));
                    },
                };
                let files = match parse_files_xml(files_xml.as_str()) {
                    Ok(f) => f,
                    Err(e) => {
                        return failed(InstallError::ParseError(e));
                    },
                };
                Installation {
                    state: State::ManifestParsed {
                        options,
                        bundle: PackageBundle { metadata, files, archive },
                    },
                }
            },
            State::ManifestParsed { options, bundle } => {
                let PackageBundle { metadata, files, archive } = bundle;
                match StagingArea::extract(archive.as_slice()) {
                    Err(e) => failed(InstallError::ArchiveError(e)),
                    Ok(staging) => Installation {
                        state: State::Extracted { options, metadata, files, staging },
                    },
                }
            },
            State::Extracted { options, metadata, files, staging } => {
                let verdicts = verify_all(&files, &staging);
                assert(verdicts@.len() == files.File@.len()) by {
                    assert(verdicts_view(verdicts@).len() == verdicts@.len());
                    assert(files@.len() == files.File@.len());
                }
                let strict = match options.policy {
                    Policy::Strict => true,
                    Policy::Permissive => false,
                };
                match find_failure(verdicts.as_slice()) {
                    Some(i) => {
                        if strict {
                            assert(files@[i as int] == files.File@[i as int]@);
                            failed(
                                InstallError::IntegrityError {
                                    index: i,
                                    path: files.File[i].Path.clone(),
                                    verdict: verdicts[i].duplicate(),
                                },
                            )
                        } else {
                            Installation {
                                state: State::Verified { options, metadata, files, staging, verdicts },
                            }
                        }
                    },
                    None => Installation {
                        state: State::Verified { options, metadata, files, staging, verdicts },
                    },
                }
            },
            other => Installation { state: other },
        }
    }

    /// Plans the installation and starts on the plan: see [`after_plan`]. `present` tells
    /// for each declared item whether its path exists in the target; where it does not
    /// hold one finding for each item, nothing is planned and the installation stays as it
    /// is.
    pub fn plan(self, present: &[bool]) -> (next: Installation)
        ensures
            next@ == after_plan(self@, present@),
    {
        proof {
            use_type_invariant(&self);
        }
        match self.state {
            State::Verified { options, metadata, files, staging, verdicts } => {
                let plan = match build_plan(verdicts.as_slice(), present, options.force) {
                    Some(plan) => plan,
                    None => {
                        return Installation {
                            state: State::Verified { options, metadata, files, staging, verdicts },
                        };
                    },
                };
                match plan.conflict() {
                    Some(i) => {
                        proof {
                            lemma_first_where(plan@.len(), |k: int| plan@[k] == PlanTag::Conflict);
                            assert(files@.len() == files.File@.len());
                            assert(files@[i as int] == files.File@[i as int]@);
                        }
                        failed(
                            InstallError::ConflictError { index: i, path: files.File[i].Path.clone() },
                        )
                    },
                    None => {
                        let script = build_script(&files, &plan);
                        let machine = Machine::start(script);
                        settle(metadata, files, staging, verdicts, plan, machine)
                    },
                }
            },
            other => Installation { state: other },
        }
    }

    /// Whether the installation asks the target for a step.
    pub fn is_running(&self) -> (r: bool)
        ensures
            r == (next_step_of(self@) is Some),
            installation_wf(self@),
    {
        proof {
            use_type_invariant(self);
        }
        match &self.state {
            State::Planned { .. } => true,
            _ => false,
        }
    }

    /// The step that the installation asks the target for.
    pub fn next_step(&self) -> (r: Option<Step>)
        ensures
            match r {
                Some(step) => next_step_of(self@) == Some(step@),
                None => next_step_of(self@) is None,
            },
    {
        match &self.state {
            State::Planned { machine, .. } => machine.next_step(),
            _ => None,
        }
    }

    /// Takes the target's answer to the step that the installation asked for: see
    /// [`after_record`].
    pub fn record(self, outcome: Outcome) -> (next: Installation)
        ensures
            next@ == after_record(self@, outcome),
    {
        proof {
            use_type_invariant(&self);
        }
        match self.state {
            State::Planned { metadata, files, staging, verdicts, plan, machine } => {
                let machine = machine.record(outcome);
                settle(metadata, files, staging, verdicts, plan, machine)
            },
            other => Installation { state: other },
        }
    }

    /// Does the step that the installation asks for on a target in memory, and takes the
    /// target's answer: see [`one_step`].
    pub fn step_on(self, target: &mut TargetFs) -> (next: Installation)
        ensures
            (next@, final(target)@) == one_step(self@, old(target)@),
    {
        proof {
            use_type_invariant(&self);
        }
        match self.state {
            State::Planned { metadata, files, staging, verdicts, plan, machine } => {
                match machine.next_step() {
                    Some(step) => {
                        let outcome = target.perform(&step, &staging);
                        let machine = machine.record(outcome);
                        settle(metadata, files, staging, verdicts, plan, machine)
                    },
                    None => Installation {
                        state: State::Planned { metadata, files, staging, verdicts, plan, machine },
                    },
                }
            },
            other => Installation { state: other },
        }
    }

    /// What the installation reports, once it has ended.
    pub fn into_result(self) -> (r: Option<Result<InstallReport, InstallError>>)
        ensures
            match r {
                Some(result) => result_of(self@) == Some(result_view(result)),
                None => result_of(self@) is None,
            },
    {
        match self.state {
            State::Installed { report } => Some(Ok(report)),
            State::Failed { error } => Some(Err(error)),
            _ => None,
        }
    }
}

/// Installs a package on a target in memory: parses the two documents, extracts the
/// archive, verifies every declared item, plans against what the target holds, and carries
/// the plan out. See [`install_outcome`].
pub fn install_package(
    metadata_xml: &str,
    files_xml: &str,
    archive: Vec<u8>,
    target: &mut TargetFs,
    options: InstallOptions,
) -> (r: Result<InstallReport, InstallError>)
    ensures
        result_of(
            install_outcome(metadata_xml@, files_xml@, archive@, options, old(target)@).0,
        ) == Some(result_view(r)),
        final(target)@ == install_outcome(
            metadata_xml@,
            files_xml@,
            archive@,
            options,
            old(target)@,
        ).1,
{
    let loaded = Installation::load(metadata_xml.to_owned(), files_xml.to_owned(), archive, options);
    let ghost first = after_advance(loaded@);
    let ghost second = after_advance(first);
    let verified = loaded.advance().advance().advance();
    let ghost before = verified@;
    let ghost start = target@;
    proof {
        assert(before == after_advance(second));
        assert(before is Verified || before is Failed);
    }
    let present = match verified.files_to_probe() {
        Some(files) => probe(files, target),
        None => Vec::new(),
    };
    let mut current = verified.plan(present.as_slice());
    proof {
        assert(current@ is Planned || current@ is Installed || current@ is Failed);
    }
    while current.is_running()
        invariant
            current@ is Planned || current@ is Installed || current@ is Failed,
            installation_wf(current@),
            run(current@, target@) == carried_out(before, start),
        decreases measure_of(current@),
    {
        proof {
            lemma_one_step(current@, target@);
        }
        current = current.step_on(target);
    }
    match current.into_result() {
        Some(r) => r,
        None => vstd::pervasive::unreached(),
    }
}

} // verus!
