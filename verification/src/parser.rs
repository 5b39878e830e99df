//! The manifest parser: the package's metadata and its ordered list of files, read from the
//! two descriptor documents.

use crate::error::{fault_about, ParseError, ParseErrorKind, ParseFault};
use crate::number::{number_of, parse_decimal, parse_octal};
use crate::text::{same_text, utf8};
use crate::xml::{
    collect_elements, document_tokens, elements_of, elements_view, tokenize, ElementView,
    XmlElement,
};
use vstd::prelude::*;
use vstd::string::*;

verus! {

/// The largest permission value: twelve bits.
pub const MODE_MAX: u64 = 0o7777;

/// One declared item of a package.
#[allow(non_snake_case)]
#[derive(Clone, Debug, PartialEq, Eq)]
pub struct File {
    /// Where the item goes, relative to the target root and as the archive names it.
    pub Path: String,
    /// What the item is; `directory` declares a directory, anything else a regular file with
    /// content. Only directories and regular files are installed: an item that is staged as
    /// anything else, such as a symbolic link, does not verify.
    pub Type: String,
    /// Length of the content in bytes.
    pub Size: u64,
    /// Owner.
    pub Uid: u32,
    /// Group.
    pub Gid: u32,
    /// Permission bits, written in octal. Where the text is not an octal number of at most
    /// twelve bits, the item is installed without its owner, group and permission bits
    /// being set.
    pub Mode: String,
    /// Digest of the content, written in hexadecimal.
    pub Hash: String,
}

/// The view of a [`File`].
pub struct FileView {
    pub path: Seq<char>,
    pub kind: Seq<char>,
    pub size: u64,
    pub uid: u32,
    pub gid: u32,
    pub mode: Seq<char>,
    pub hash: Seq<char>,
}

impl View for File {
    type V = FileView;

    open spec fn view(&self) -> FileView {
        FileView {
            path: self.Path@,
            kind: self.Type@,
            size: self.Size,
            uid: self.Uid,
            gid: self.Gid,
            mode: self.Mode@,
            hash: self.Hash@,
        }
    }
}

/// The list of a package's files, in the order of the document.
#[allow(non_snake_case)]
#[derive(Clone, Debug, PartialEq, Eq)]
pub struct Files {
    pub File: Vec<File>,
}

impl View for Files {
    type V = Seq<FileView>;

    open spec fn view(&self) -> Seq<FileView> {
        self.File@.map_values(|f: File| f@)
    }
}

/// What identifies a package. A field other than `Name` that the document leaves out is
/// empty.
#[allow(non_snake_case)]
#[derive(Clone, Debug, PartialEq, Eq)]
pub struct Metadata {
    pub Name: String,
    pub Summary: String,
    pub Description: String,
    pub Architecture: String,
    pub Version: String,
    pub License: String,
}

/// The view of a [`Metadata`].
pub struct MetadataView {
    pub name: Seq<char>,
    pub summary: Seq<char>,
    pub description: Seq<char>,
    pub architecture: Seq<char>,
    pub version: Seq<char>,
    pub license: Seq<char>,
}

impl View for Metadata {
    type V = MetadataView;

    open spec fn view(&self) -> MetadataView {
        MetadataView {
            name: self.Name@,
            summary: self.Summary@,
            description: self.Description@,
            architecture: self.Architecture@,
            version: self.Version@,
            license: self.License@,
        }
    }
}

/// Whether a declared item is a directory.
pub open spec fn declares_directory(f: FileView) -> bool {
    f.kind == "directory"@
}

/// The permission bits that an entry's mode spells, if it spells any.
pub open spec fn mode_of(f: FileView) -> Option<nat> {
    number_of(f.mode, 8, MODE_MAX as nat)
}

/// The bytes of an entry's path.
pub open spec fn path_of(f: FileView) -> Seq<u8> {
    utf8(f.path)
}

impl File {
    /// Whether the entry declares a directory.
    pub fn is_directory(&self) -> (r: bool)
        ensures
            r == declares_directory(self@),
    {
        same_text(self.Type.as_str(), "directory")
    }

    /// The permission bits of the entry, if its mode spells any.
    pub fn mode_bits(&self) -> (r: Option<u32>)
        ensures
            match r {
                Some(m) => mode_of(self@) == Some(m as nat),
                None => mode_of(self@) is None,
            },
    {
        match parse_octal(self.Mode.as_str(), MODE_MAX) {
            Some(m) => Some(m as u32),
            None => None,
        }
    }

    /// The bytes of the entry's path.
    pub fn path_bytes(&self) -> (r: &[u8])
        ensures
            r@ == path_of(self@),
    {
        self.Path.as_str().as_bytes()
    }
}

/// Whether an element stands at `depth` and is named `name`.
pub open spec fn is_field(e: ElementView, depth: nat, name: Seq<char>) -> bool {
    e.depth == depth && e.name == name
}

/// The texts of those of `fields` that stand at `depth` and are named `name`, in their order.
pub open spec fn texts_of(fields: Seq<ElementView>, depth: nat, name: Seq<char>) -> Seq<Seq<char>>
    decreases fields.len(),
{
    if fields.len() == 0 {
        Seq::empty()
    } else {
        let before = texts_of(fields.drop_last(), depth, name);
        if is_field(fields.last(), depth, name) {
            before.push(fields.last().text)
        } else {
            before
        }
    }
}

/// The text of the one field at `depth` that is named `name`, if there is one. A field that
/// stands twice is an error.
pub open spec fn single_text(fields: Seq<ElementView>, depth: nat, name: Seq<char>) -> Result<
    Option<Seq<char>>,
    ParseFault,
> {
    let texts = texts_of(fields, depth, name);
    if texts.len() == 0 {
        Ok(None)
    } else if texts.len() == 1 {
        Ok(Some(texts[0]))
    } else {
        Err(fault_about(ParseErrorKind::RepeatedField, name))
    }
}

/// The text of a field that must be there.
pub open spec fn required_text(fields: Seq<ElementView>, depth: nat, name: Seq<char>) -> Result<
    Seq<char>,
    ParseFault,
> {
    match single_text(fields, depth, name) {
        Err(e) => Err(e),
        Ok(Some(t)) => Ok(t),
        Ok(None) => Err(fault_about(ParseErrorKind::MissingField, name)),
    }
}

/// The text of a field that may be left out; it is empty where the field is left out.
pub open spec fn optional_text(fields: Seq<ElementView>, depth: nat, name: Seq<char>) -> Result<
    Seq<char>,
    ParseFault,
> {
    match single_text(fields, depth, name) {
        Err(e) => Err(e),
        Ok(Some(t)) => Ok(t),
        Ok(None) => Ok(Seq::empty()),
    }
}

/// The value of a required field that holds a decimal number of at most `max`.
pub open spec fn required_number(fields: Seq<ElementView>, depth: nat, name: Seq<char>, max: nat)
    -> Result<nat, ParseFault> {
    match required_text(fields, depth, name) {
        Err(e) => Err(e),
        Ok(t) => match number_of(t, 10, max) {
            Some(v) => Ok(v),
            None => Err(fault_about(ParseErrorKind::InvalidField, name)),
        },
    }
}

/// A longer list of fields holds no fewer texts of a name.
proof fn lemma_texts_grow(fields: Seq<ElementView>, depth: nat, name: Seq<char>, n: int)
    requires
        0 <= n <= fields.len(),
    ensures
        texts_of(fields.take(n), depth, name).len() <= texts_of(fields, depth, name).len(),
    decreases fields.len() - n,
{
    if n == fields.len() {
        assert(fields.take(n) =~= fields);
    } else {
        assert(fields.take(n + 1).drop_last() =~= fields.take(n));
        lemma_texts_grow(fields, depth, name, n + 1);
    }
}

fn find_single(fields: &[XmlElement], depth: usize, name: &str) -> (r: Result<
    Option<usize>,
    ParseError,
>)
    ensures
        match r {
            Ok(Some(i)) => i < fields@.len() && single_text(
                elements_view(fields@),
                depth as nat,
                name@,
            ) == Ok::<_, ParseFault>(Some(fields@[i as int].text@)),
            Ok(None) => single_text(elements_view(fields@), depth as nat, name@) == Ok::<
                Option<Seq<char>>,
                ParseFault,
            >(None),
            Err(e) => single_text(elements_view(fields@), depth as nat, name@) == Err::<
                Option<Seq<char>>,
                _,
            >(e@),
        },
{
    let ghost all = elements_view(fields@);
    let mut found: Option<usize> = None;
    let mut i: usize = 0;
    assert(all.take(0) =~= Seq::empty());
    while i < fields.len()
        invariant
            i <= fields@.len(),
            all == elements_view(fields@),
            match found {
                Some(j) => j < i && texts_of(all.take(i as int), depth as nat, name@) == seq![
                    fields@[j as int].text@,
                ],
                None => texts_of(all.take(i as int), depth as nat, name@).len() == 0,
            },
        decreases fields@.len() - i,
    {
        proof {
            assert(all.take(i + 1).drop_last() =~= all.take(i as int));
            assert(all.take(i + 1).last() == fields@[i as int]@);
        }
        if fields[i].depth == depth && same_text(fields[i].name.as_str(), name) {
            if found.is_some() {
                proof {
                    lemma_texts_grow(all, depth as nat, name@, i + 1);
                }
                return Err(ParseError::about(ParseErrorKind::RepeatedField, name));
            }
            found = Some(i);
            assert(texts_of(all.take(i + 1), depth as nat, name@) =~= seq![
                fields@[i as int].text@,
            ]);
        }
        i += 1;
    }
    proof {
        assert(all.take(i as int) =~= all);
    }
    Ok(found)
}

fn get_required(fields: &[XmlElement], depth: usize, name: &str) -> (r: Result<String, ParseError>)
    ensures
        match r {
            Ok(t) => required_text(elements_view(fields@), depth as nat, name@) == Ok::<
                _,
                ParseFault,
            >(t@),
            Err(e) => required_text(elements_view(fields@), depth as nat, name@) == Err::<
                Seq<char>,
                _,
            >(e@),
        },
{
    match find_single(fields, depth, name) {
        Err(e) => Err(e),
        Ok(Some(i)) => Ok(fields[i].text.clone()),
        Ok(None) => Err(ParseError::about(ParseErrorKind::MissingField, name)),
    }
}

fn get_optional(fields: &[XmlElement], depth: usize, name: &str) -> (r: Result<String, ParseError>)
    ensures
        match r {
            Ok(t) => optional_text(elements_view(fields@), depth as nat, name@) == Ok::<
                _,
                ParseFault,
            >(t@),
            Err(e) => optional_text(elements_view(fields@), depth as nat, name@) == Err::<
                Seq<char>,
                _,
            >(e@),
        },
{
    match find_single(fields, depth, name) {
        Err(e) => Err(e),
        Ok(Some(i)) => Ok(fields[i].text.clone()),
        Ok(None) => Ok(String::new()),
    }
}

fn get_number(fields: &[XmlElement], depth: usize, name: &str, max: u64) -> (r: Result<
    u64,
    ParseError,
>)
    ensures
        match r {
            Ok(v) => required_number(elements_view(fields@), depth as nat, name@, max as nat)
                == Ok::<_, ParseFault>(v as nat),
            Err(e) => required_number(elements_view(fields@), depth as nat, name@, max as nat)
                == Err::<nat, _>(e@),
        },
{
    match get_required(fields, depth, name) {
        Err(e) => Err(e),
        Ok(t) => match parse_decimal(t.as_str(), max) {
            Some(v) => Ok(v),
            None => Err(ParseError::about(ParseErrorKind::InvalidField, name)),
        },
    }
}

/// The entry that the children of one `File` element declare. Every field must be there
/// once, and size, owner and group must be decimal numbers within their range; the fields are read
/// in the order path, type, size, owner, group, mode, hash, and the first one at fault is
/// reported.
pub open spec fn entry_of(fields: Seq<ElementView>) -> Result<FileView, ParseFault> {
    match required_text(fields, 3, "Path"@) {
        Err(e) => Err(e),
        Ok(path) => match required_text(fields, 3, "Type"@) {
            Err(e) => Err(e),
            Ok(kind) => match required_number(fields, 3, "Size"@, u64::MAX as nat) {
                Err(e) => Err(e),
                Ok(size) => match required_number(fields, 3, "Uid"@, u32::MAX as nat) {
                    Err(e) => Err(e),
                    Ok(uid) => match required_number(fields, 3, "Gid"@, u32::MAX as nat) {
                        Err(e) => Err(e),
                        Ok(gid) => match required_text(fields, 3, "Mode"@) {
                            Err(e) => Err(e),
                            Ok(mode) => match required_text(fields, 3, "Hash"@) {
                                Err(e) => Err(e),
                                Ok(hash) => Ok(
                                    FileView {
                                        path,
                                        kind,
                                        size: size as u64,
                                        uid: uid as u32,
                                        gid: gid as u32,
                                        mode,
                                        hash,
                                    },
                                ),
                            },
                        },
                    },
                },
            },
        },
    }
}

fn read_entry(fields: &[XmlElement]) -> (r: Result<File, ParseError>)
    ensures
        match r {
            Ok(f) => entry_of(elements_view(fields@)) == Ok::<_, ParseFault>(f@),
            Err(e) => entry_of(elements_view(fields@)) == Err::<FileView, _>(e@),
        },
{
    let path = match get_required(fields, 3, "Path") {
        Ok(t) => t,
        Err(e) => {
            return Err(e);
        },
    };
    let kind = match get_required(fields, 3, "Type") {
        Ok(t) => t,
        Err(e) => {
            return Err(e);
        },
    };
    let size = match get_number(fields, 3, "Size", u64::MAX) {
        Ok(v) => v,
        Err(e) => {
            return Err(e);
        },
    };
    let uid = match get_number(fields, 3, "Uid", u32::MAX as u64) {
        Ok(v) => v,
        Err(e) => {
            return Err(e);
        },
    };
    let gid = match get_number(fields, 3, "Gid", u32::MAX as u64) {
        Ok(v) => v,
        Err(e) => {
            return Err(e);
        },
    };
    let mode = match get_required(fields, 3, "Mode") {
        Ok(t) => t,
        Err(e) => {
            return Err(e);
        },
    };
    let hash = match get_required(fields, 3, "Hash") {
        Ok(t) => t,
        Err(e) => {
            return Err(e);
        },
    };
    Ok(File { Path: path, Type: kind, Size: size, Uid: uid as u32, Gid: gid as u32, Mode: mode, Hash: hash })
}

/// Where the reading of a file list stands: the fields of the entry that is being read, and
/// the entries that are complete.
pub struct Gather {
    pub fields: Seq<ElementView>,
    pub files: Seq<FileView>,
}

/// The reading after one more element has closed. An element at depth three is a field of
/// the entry around it; a `File` element at depth two completes an entry from the fields
/// before it; any other element at depth two drops them.
pub open spec fn gather_step(g: Gather, e: ElementView) -> Result<Gather, ParseFault> {
    if e.depth == 3 {
        Ok(Gather { fields: g.fields.push(e), ..g })
    } else if e.depth == 2 {
        if e.name == "File"@ {
            match entry_of(g.fields) {
                Err(x) => Err(x),
                Ok(f) => Ok(Gather { fields: Seq::empty(), files: g.files.push(f) }),
            }
        } else {
            Ok(Gather { fields: Seq::empty(), ..g })
        }
    } else {
        Ok(g)
    }
}

/// The reading of all the elements of a file list.
pub open spec fn gather(elements: Seq<ElementView>) -> Result<Gather, ParseFault>
    decreases elements.len(),
{
    if elements.len() == 0 {
        Ok(Gather { fields: Seq::empty(), files: Seq::empty() })
    } else {
        match gather(elements.drop_last()) {
            Err(e) => Err(e),
            Ok(g) => gather_step(g, elements.last()),
        }
    }
}

/// The entries that the elements of a file list declare, in the order of the document and
/// each as often as the document declares it. The first entry at fault is reported.
pub open spec fn listed_files(elements: Seq<ElementView>) -> Result<Seq<FileView>, ParseFault> {
    match gather(elements) {
        Err(e) => Err(e),
        Ok(g) => Ok(g.files),
    }
}

/// The metadata that the elements of a metadata document declare: the children of the root,
/// of which only the name is required and none may stand twice. The fields are read in the
/// order name, summary, description, architecture, version, license, and the first one at
/// fault is reported.
pub open spec fn declared_metadata(elements: Seq<ElementView>) -> Result<MetadataView, ParseFault> {
    match required_text(elements, 2, "Name"@) {
        Err(e) => Err(e),
        Ok(name) => match optional_text(elements, 2, "Summary"@) {
            Err(e) => Err(e),
            Ok(summary) => match optional_text(elements, 2, "Description"@) {
                Err(e) => Err(e),
                Ok(description) => match optional_text(elements, 2, "Architecture"@) {
                    Err(e) => Err(e),
                    Ok(architecture) => match optional_text(elements, 2, "Version"@) {
                        Err(e) => Err(e),
                        Ok(version) => match optional_text(elements, 2, "License"@) {
                            Err(e) => Err(e),
                            Ok(license) => Ok(
                                MetadataView {
                                    name,
                                    summary,
                                    description,
                                    architecture,
                                    version,
                                    license,
                                },
                            ),
                        },
                    },
                },
            },
        },
    }
}

/// The elements of a document.
pub open spec fn document_elements(doc: Seq<u8>) -> Result<Seq<ElementView>, ParseFault> {
    match document_tokens(doc) {
        Err(e) => Err(e),
        Ok(tokens) => elements_of(tokens),
    }
}

/// The file list that a document declares.
pub open spec fn files_document(doc: Seq<u8>) -> Result<Seq<FileView>, ParseFault> {
    match document_elements(doc) {
        Err(e) => Err(e),
        Ok(elements) => listed_files(elements),
    }
}

/// The metadata that a document declares.
pub open spec fn metadata_document(doc: Seq<u8>) -> Result<MetadataView, ParseFault> {
    match document_elements(doc) {
        Err(e) => Err(e),
        Ok(elements) => declared_metadata(elements),
    }
}

/// The view of a parsed file list.
pub open spec fn files_result(r: Result<Files, ParseError>) -> Result<Seq<FileView>, ParseFault> {
    match r {
        Ok(files) => Ok(files@),
        Err(e) => Err(e@),
    }
}

/// The view of parsed metadata.
pub open spec fn metadata_result(r: Result<Metadata, ParseError>) -> Result<
    MetadataView,
    ParseFault,
> {
    match r {
        Ok(m) => Ok(m@),
        Err(e) => Err(e@),
    }
}

/// A reading that fails on a prefix fails on the whole with the same fault.
proof fn lemma_gather_fails(elements: Seq<ElementView>, n: int)
    requires
        0 <= n <= elements.len(),
        gather(elements.take(n)) is Err,
    ensures
        gather(elements) == gather(elements.take(n)),
    decreases elements.len() - n,
{
    if n == elements.len() {
        assert(elements.take(n) =~= elements);
    } else {
        assert(elements.take(n + 1).drop_last() =~= elements.take(n));
        lemma_gather_fails(elements, n + 1);
    }
}

/// Builds the file list from the elements of its document: see [`listed_files`].
pub fn files_from_elements(elements: &[XmlElement]) -> (r: Result<Files, ParseError>)
    ensures
        files_result(r) == listed_files(elements_view(elements@)),
{
    let ghost all = elements_view(elements@);
    let mut fields: Vec<XmlElement> = Vec::new();
    let mut files: Vec<File> = Vec::new();
    let mut i: usize = 0;
    proof {
        assert(all.take(0) =~= Seq::empty());
        assert(elements_view(fields@) =~= Seq::empty());
        assert(files@.map_values(|f: File| f@) =~= Seq::empty());
    }
    while i < elements.len()
        invariant
            i <= elements@.len(),
            all == elements_view(elements@),
            gather(all.take(i as int)) == Ok::<_, ParseFault>(
                Gather {
                    fields: elements_view(fields@),
                    files: files@.map_values(|f: File| f@),
                },
            ),
        decreases elements@.len() - i,
    {
        let ghost before = Gather {
            fields: elements_view(fields@),
            files: files@.map_values(|f: File| f@),
        };
        proof {
            assert(all.take(i + 1).drop_last() =~= all.take(i as int));
            assert(all.take(i + 1).last() == elements@[i as int]@);
        }
        let e = &elements[i];
        if e.depth == 3 {
            fields.push(e.clone_element());
            assert(elements_view(fields@) =~= before.fields.push(e@));
        } else if e.depth == 2 {
            if same_text(e.name.as_str(), "File") {
                match read_entry(fields.as_slice()) {
                    Err(x) => {
                        proof {
                            lemma_gather_fails(all, i + 1);
                        }
                        return Err(x);
                    },
                    Ok(f) => {
                        files.push(f);
                        assert(files@.map_values(|f: File| f@) =~= before.files.push(f@));
                    },
                }
            }
            fields = Vec::new();
            assert(elements_view(fields@) =~= Seq::empty());
        }
        i += 1;
    }
    proof {
        assert(all.take(i as int) =~= all);
    }
    Ok(Files { File: files })
}

/// Builds the metadata from the elements of its document: see [`declared_metadata`].
pub fn metadata_from_elements(elements: &[XmlElement]) -> (r: Result<Metadata, ParseError>)
    ensures
        metadata_result(r) == declared_metadata(elements_view(elements@)),
{
    let name = match get_required(elements, 2, "Name") {
        Ok(t) => t,
        Err(e) => {
            return Err(e);
        },
    };
    let summary = match get_optional(elements, 2, "Summary") {
        Ok(t) => t,
        Err(e) => {
            return Err(e);
        },
    };
    let description = match get_optional(elements, 2, "Description") {
        Ok(t) => t,
        Err(e) => {
            return Err(e);
        },
    };
    let architecture = match get_optional(elements, 2, "Architecture") {
        Ok(t) => t,
        Err(e) => {
            return Err(e);
        },
    };
    let version = match get_optional(elements, 2, "Version") {
        Ok(t) => t,
        Err(e) => {
            return Err(e);
        },
    };
    let license = match get_optional(elements, 2, "License") {
        Ok(t) => t,
        Err(e) => {
            return Err(e);
        },
    };
    Ok(
        Metadata {
            Name: name,
            Summary: summary,
            Description: description,
            Architecture: architecture,
            Version: version,
            License: license,
        },
    )
}

/// Reads a document into its elements.
pub fn read_elements(content: &str) -> (r: Result<Vec<XmlElement>, ParseError>)
    ensures
        crate::xml::elements_result(r) == document_elements(utf8(content@)),
{
    match tokenize(content.as_bytes()) {
        Err(e) => Err(e),
        Ok(tokens) => collect_elements(tokens.as_slice()),
    }
}

/// Reads the file list of a package from the text of its document. Every entry must hold
/// all seven fields, with size, owner and group in decimal; the entries keep the order of
/// the document, and none is dropped or merged.
pub fn parse_files_xml(content: &str) -> (r: Result<Files, ParseError>)
    ensures
        files_result(r) == files_document(utf8(content@)),
{
    match read_elements(content) {
        Err(e) => Err(e),
        Ok(elements) => files_from_elements(elements.as_slice()),
    }
}

/// Reads the metadata of a package from the text of its document. The name must be there.
pub fn parse_metadata_xml(content: &str) -> (r: Result<Metadata, ParseError>)
    ensures
        metadata_result(r) == metadata_document(utf8(content@)),
{
    match read_elements(content) {
        Err(e) => Err(e),
        Ok(elements) => metadata_from_elements(elements.as_slice()),
    }
}

} // verus!
