//! The content extractor: the members of a package's compressed archive, and the staging
//! area that holds them once each path has passed the traversal guard.

use crate::table::PathTable;
use vstd::prelude::*;

verus! {

/// The error type of the archive and compression readers.
#[verifier::external_type_specification]
#[verifier::external_body]
pub struct ExIoError(std::io::Error);

/// The kind of a member that is a regular file.
pub const KIND_FILE: u8 = 48;

/// The kind of a member that is a directory.
pub const KIND_DIRECTORY: u8 = 53;

/// One member of a content archive: its path as the archive spells it, the type byte of
/// its header, and its content.
#[derive(Debug, PartialEq, Eq)]
pub struct ArchiveMember {
    pub path: Vec<u8>,
    pub kind: u8,
    pub content: Vec<u8>,
}

/// The view of an [`ArchiveMember`].
pub struct MemberView {
    pub path: Seq<u8>,
    pub kind: u8,
    pub content: Seq<u8>,
}

impl View for ArchiveMember {
    type V = MemberView;

    open spec fn view(&self) -> MemberView {
        MemberView { path: self.path@, kind: self.kind, content: self.content@ }
    }
}

/// The views of a sequence of members.
pub open spec fn members_view(members: Seq<ArchiveMember>) -> Seq<MemberView> {
    members.map_values(|m: ArchiveMember| m@)
}

/// The bytes that the xz stream `data` decompresses to; `None` where the decoder reports an
/// error.
pub uninterp spec fn xz_decoded(data: Seq<u8>) -> Option<Seq<u8>>;

/// The members of the tar archive `data`, in the order of the archive; `None` where the
/// archive reader reports an error.
pub uninterp spec fn tar_entries(data: Seq<u8>) -> Option<Seq<MemberView>>;

/// Decompresses `data` by reading an `xz2::read::XzDecoder` over it to the end. The contract
/// only names the result: the same stream always decompresses to the same bytes.
#[verifier::external_body]
fn xz_decode(data: &[u8]) -> (r: Result<Vec<u8>, std::io::Error>)
    ensures
        match r {
            Ok(bytes) => xz_decoded(data@) == Some(bytes@),
            Err(_) => xz_decoded(data@) is None,
        },
{
    let mut bytes = Vec::new();
    std::io::Read::read_to_end(&mut xz2::read::XzDecoder::new(data), &mut bytes)?;
    Ok(bytes)
}

/// Walks the archive `data` with `tar::Archive::entries`, taking of each entry its
/// `path_bytes`, the byte of its header's `entry_type`, and the bytes that reading it to the
/// end gives. The contract only names the result: the same archive
/// always yields the same members. Archives with the header of a sparse file are left out:
/// the reader adds up the offsets that such a header lists without a bound, and reading the
/// entry fills the holes that it lists, however large.
#[verifier::external_body]
fn read_members(data: &[u8]) -> (r: Result<Vec<ArchiveMember>, std::io::Error>)
    requires
        !holds_sparse_header(data@),
    ensures
        match r {
            Ok(members) => tar_entries(data@) == Some(members_view(members@)),
            Err(_) => tar_entries(data@) is None,
        },
{
    let mut archive = tar::Archive::new(data);
    let mut members = Vec::new();
    for entry in archive.entries()? {
        let mut entry = entry?;
        let path = entry.path_bytes().into_owned();
        let kind = entry.header().entry_type().as_byte();
        let mut content = Vec::new();
        std::io::Read::read_to_end(&mut entry, &mut content)?;
        members.push(ArchiveMember { path, kind, content });
    }
    Ok(members)
}

/// The size of a block of a tar archive.
pub const BLOCK: usize = 512;

/// Whether block `k` of `data` reads as the header of a GNU sparse file: the type byte is
/// `S`, and the magic and version fields are those of a GNU header.
pub open spec fn sparse_header_at(data: Seq<u8>, k: int) -> bool {
    let at = BLOCK * k;
    &&& 0 <= k
    &&& at + BLOCK <= data.len()
    &&& data[at + 156] == 83
    &&& data[at + 257] == 117
    &&& data[at + 258] == 115
    &&& data[at + 259] == 116
    &&& data[at + 260] == 97
    &&& data[at + 261] == 114
    &&& data[at + 262] == 32
    &&& data[at + 263] == 32
    &&& data[at + 264] == 0
}

/// Whether some block of `data` reads as the header of a GNU sparse file. Headers stand at
/// block boundaries only; a block of content that reads so is taken for one too.
pub open spec fn holds_sparse_header(data: Seq<u8>) -> bool {
    exists|k: int| sparse_header_at(data, k)
}

/// Looks for a block that reads as the header of a sparse file: see
/// [`holds_sparse_header`].
pub fn find_sparse_header(data: &[u8]) -> (r: bool)
    ensures
        r == holds_sparse_header(data@),
{
    let n = data.len();
    let mut at: usize = 0;
    let mut k: usize = 0;
    while n - at >= BLOCK
        invariant
            n == data@.len(),
            at <= n,
            at == BLOCK * k,
            forall|j: int| j < k ==> !sparse_header_at(data@, j),
        decreases n - at,
    {
        if data[at + 156] == 83 && data[at + 257] == 117 && data[at + 258] == 115 && data[at
            + 259] == 116 && data[at + 260] == 97 && data[at + 261] == 114 && data[at + 262] == 32
            && data[at + 263] == 32 && data[at + 264] == 0 {
            assert(sparse_header_at(data@, k as int));
            return true;
        }
        at += BLOCK;
        k += 1;
    }
    assert forall|j: int| !sparse_header_at(data@, j) by {
        if j >= k {
            assert(BLOCK * j >= BLOCK * k) by (nonlinear_arith)
                requires
                    j >= k,
            ;
        }
    }
    false
}

/// Whether the two bytes at `i` are a `..` component of `path`.
pub open spec fn parent_component_at(path: Seq<u8>, i: int) -> bool {
    &&& 0 <= i
    &&& i + 2 <= path.len()
    &&& path[i] == 46
    &&& path[i + 1] == 46
    &&& (i == 0 || path[i - 1] == 47)
    &&& (i + 2 == path.len() || path[i + 2] == 47)
}

/// Whether a member path stays below the root that it is resolved against: it is not
/// empty, does not begin at the root, and has no `..` component.
pub open spec fn is_safe_path(path: Seq<u8>) -> bool {
    &&& path.len() > 0
    &&& path[0] != 47
    &&& forall|i: int| !parent_component_at(path, i)
}

/// The path-traversal guard: see [`is_safe_path`].
pub fn check_path(path: &[u8]) -> (r: bool)
    ensures
        r == is_safe_path(path@),
{
    let n = path.len();
    if n == 0 || path[0] == 47 {
        return false;
    }
    let mut i: usize = 0;
    while i < n - 1
        invariant
            n == path@.len(),
            i < n,
            forall|k: int| k < i ==> !parent_component_at(path@, k),
        decreases n - i,
    {
        if path[i] == 46 && path[i + 1] == 46 && (i == 0 || path[i - 1] == 47) && (i + 2 == n
            || path[i + 2] == 47) {
            assert(parent_component_at(path@, i as int));
            return false;
        }
        i += 1;
    }
    true
}

/// What went wrong while extracting an archive.
#[derive(Clone, Copy, Debug, PartialEq, Eq, Structural)]
pub enum ArchiveErrorKind {
    /// The compression stream or the archive is corrupt or cut short.
    Corrupt,
    /// The archive holds a sparse file, which the engine does not read.
    Unsupported,
    /// A member's path would leave the staging root.
    PathTraversal,
}

/// A failure to extract an archive; `path` is the path of the member at fault, and empty
/// where the archive could not be read.
#[derive(Clone, Debug, PartialEq, Eq)]
pub struct ArchiveError {
    pub kind: ArchiveErrorKind,
    pub path: Vec<u8>,
}

/// The view of an [`ArchiveError`].
pub struct ArchiveFault {
    pub kind: ArchiveErrorKind,
    pub path: Seq<u8>,
}

impl View for ArchiveError {
    type V = ArchiveFault;

    open spec fn view(&self) -> ArchiveFault {
        ArchiveFault { kind: self.kind, path: self.path@ }
    }
}

/// The staged content of one install: every extracted member under its path. Where the
/// archive holds a path twice, the later member stands.
pub struct StagingArea {
    table: PathTable<ArchiveMember>,
}

impl View for StagingArea {
    type V = Map<Seq<u8>, MemberView>;

    closed spec fn view(&self) -> Map<Seq<u8>, MemberView> {
        self.table.map().map_values(|m: ArchiveMember| m@)
    }
}

/// The staging area that a sequence of members fills, unless one of them fails the
/// traversal guard: then the first such member is reported.
pub open spec fn staged(members: Seq<MemberView>) -> Result<Map<Seq<u8>, MemberView>, ArchiveFault>
    decreases members.len(),
{
    if members.len() == 0 {
        Ok(Map::empty())
    } else {
        match staged(members.drop_last()) {
            Err(e) => Err(e),
            Ok(m) => if is_safe_path(members.last().path) {
                Ok(m.insert(members.last().path, members.last()))
            } else {
                Err(
                    ArchiveFault {
                        kind: ArchiveErrorKind::PathTraversal,
                        path: members.last().path,
                    },
                )
            },
        }
    }
}

/// The fault of the given kind that names no member.
pub open spec fn unread(kind: ArchiveErrorKind) -> ArchiveFault {
    ArchiveFault { kind, path: Seq::empty() }
}

/// The staging area that a decompressed archive fills. An archive with the header of a
/// sparse file is refused before it is read.
pub open spec fn unpacked(tar: Seq<u8>) -> Result<Map<Seq<u8>, MemberView>, ArchiveFault> {
    if holds_sparse_header(tar) {
        Err(unread(ArchiveErrorKind::Unsupported))
    } else {
        match tar_entries(tar) {
            None => Err(unread(ArchiveErrorKind::Corrupt)),
            Some(members) => staged(members),
        }
    }
}

/// The staging area that a compressed archive fills.
pub open spec fn extracted(archive: Seq<u8>) -> Result<Map<Seq<u8>, MemberView>, ArchiveFault> {
    match xz_decoded(archive) {
        None => Err(unread(ArchiveErrorKind::Corrupt)),
        Some(tar) => unpacked(tar),
    }
}

/// The view of the result of staging.
pub open spec fn staging_result(r: Result<StagingArea, ArchiveError>) -> Result<
    Map<Seq<u8>, MemberView>,
    ArchiveFault,
> {
    match r {
        Ok(s) => Ok(s@),
        Err(e) => Err(e@),
    }
}

/// Every path of a staging area that members filled passes the traversal guard, and leads
/// to the member of that path.
pub proof fn lemma_staged_paths_safe(members: Seq<MemberView>, path: Seq<u8>)
    requires
        staged(members) is Ok,
        staged(members)->Ok_0.contains_key(path),
    ensures
        is_safe_path(path),
        staged(members)->Ok_0[path].path == path,
    decreases members.len(),
{
    if members.len() > 0 {
        if path != members.last().path {
            lemma_staged_paths_safe(members.drop_last(), path);
        }
    }
}

/// A member that fails the traversal guard makes staging fail with a traversal error.
pub proof fn lemma_traversal_rejected(members: Seq<MemberView>, i: int)
    requires
        0 <= i < members.len(),
        !is_safe_path(members[i].path),
    ensures
        staged(members) is Err,
        staged(members)->Err_0.kind == ArchiveErrorKind::PathTraversal,
    decreases members.len(),
{
    if i < members.len() - 1 {
        lemma_traversal_rejected(members.drop_last(), i);
    } else {
        lemma_staged_fault(members.drop_last());
    }
}

/// Staging fails only with a traversal error.
pub proof fn lemma_staged_fault(members: Seq<MemberView>)
    ensures
        staged(members) is Err ==> staged(members)->Err_0.kind == ArchiveErrorKind::PathTraversal,
    decreases members.len(),
{
    if members.len() > 0 {
        lemma_staged_fault(members.drop_last());
    }
}

proof fn lemma_staged_fails(members: Seq<MemberView>, n: int)
    requires
        0 <= n <= members.len(),
        staged(members.take(n)) is Err,
    ensures
        staged(members) == staged(members.take(n)),
    decreases members.len() - n,
{
    if n == members.len() {
        assert(members.take(n) =~= members);
    } else {
        assert(members.take(n + 1).drop_last() =~= members.take(n));
        lemma_staged_fails(members, n + 1);
    }
}

impl StagingArea {
    /// Whether the area holds a member under `path`.
    pub fn contains(&self, path: &[u8]) -> (r: bool)
        ensures
            r == self@.contains_key(path@),
    {
        proof {
            use_type_invariant(self);
        }
        self.table.contains(path)
    }

    /// The member staged under `path`, if there is one.
    pub fn get(&self, path: &[u8]) -> (r: Option<&ArchiveMember>)
        ensures
            match r {
                Some(m) => self@.contains_key(path@) && m@ == self@[path@],
                None => !self@.contains_key(path@),
            },
    {
        proof {
            use_type_invariant(self);
        }
        self.table.get(path)
    }

    #[verifier::type_invariant]
    spec fn well_formed(&self) -> bool {
        self.table.wf()
    }

    /// Stages the members of an archive, in their order: see [`staged`].
    pub fn stage(members: Vec<ArchiveMember>) -> (r: Result<StagingArea, ArchiveError>)
        ensures
            staging_result(r) == staged(members_view(members@)),
    {
        let ghost all = members_view(members@);
        let mut table: PathTable<ArchiveMember> = PathTable::new();
        let mut i: usize = 0;
        proof {
            assert(all.take(0) =~= Seq::empty());
            assert(table.map().map_values(|m: ArchiveMember| m@) =~= Map::empty());
        }
        let mut pending = members;
        let n = pending.len();
        while i < n
            invariant
                all == members_view(members@),
                n == all.len(),
                i <= n,
                pending@.len() == n,
                table.wf(),
                forall|k: int| i <= k < n ==> (#[trigger] pending@[k])@ == all[k],
                staged(all.take(i as int)) == Ok::<_, ArchiveFault>(
                    table.map().map_values(|m: ArchiveMember| m@),
                ),
            decreases n - i,
        {
            proof {
                assert(all.take(i + 1).drop_last() =~= all.take(i as int));
                assert(all.take(i + 1).last() == all[i as int]);
            }
            let ghost before = table.map();
            let mut member = ArchiveMember { path: Vec::new(), kind: 0, content: Vec::new() };
            let ghost rest = pending@;
            core::mem::swap(&mut member, &mut pending[i]);
            assert(member@ == all[i as int]);
            assert forall|k: int| i + 1 <= k < n implies (#[trigger] pending@[k])@ == all[k] by {
                assert(pending@[k] == rest[k]);
            }
            if !check_path(member.path.as_slice()) {
                proof {
                    lemma_staged_fails(all, i + 1);
                    assert(staged(all.take(i + 1)) == Err::<Map<Seq<u8>, MemberView>, _>(
                        ArchiveFault {
                            kind: ArchiveErrorKind::PathTraversal,
                            path: all[i as int].path,
                        },
                    ));
                }
                let e = ArchiveError { kind: ArchiveErrorKind::PathTraversal, path: member.path };
                assert(e@.path == all[i as int].path);
                return Err(e);
            }
            let path = member.path.clone();
            table.insert(path, member);
            proof {
                assert(table.map().map_values(|m: ArchiveMember| m@) =~= before.map_values(
                    |m: ArchiveMember| m@,
                ).insert(all[i as int].path, all[i as int]));
            }
            i += 1;
        }
        proof {
            assert(all.take(i as int) =~= all);
        }
        Ok(StagingArea { table })
    }

    /// Decodes an archive and stages its members: see [`extracted`].
    pub fn extract(archive: &[u8]) -> (r: Result<StagingArea, ArchiveError>)
        ensures
            staging_result(r) == extracted(archive@),
    {
        match xz_decode(archive) {
            Err(_) => Err(ArchiveError { kind: ArchiveErrorKind::Corrupt, path: Vec::new() }),
            Ok(tar) => StagingArea::unpack(tar.as_slice()),
        }
    }

    /// Reads a decompressed archive and stages its members: see [`unpacked`].
    pub fn unpack(tar: &[u8]) -> (r: Result<StagingArea, ArchiveError>)
        ensures
            staging_result(r) == unpacked(tar@),
    {
        if find_sparse_header(tar) {
            return Err(ArchiveError { kind: ArchiveErrorKind::Unsupported, path: Vec::new() });
        }
        match read_members(tar) {
            Err(_) => Err(ArchiveError { kind: ArchiveErrorKind::Corrupt, path: Vec::new() }),
            Ok(members) => StagingArea::stage(members),
        }
    }
}

} // verus!
