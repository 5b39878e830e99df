//! Reading an XML document: the tokens that the XML reader finds in it, and the elements that
//! the tokens spell.

use crate::error::{fault, fault_about, ParseError, ParseErrorKind, ParseFault};
use crate::text::{blank, is_blank};
use quick_xml::events::Event;
use quick_xml::Reader;
use vstd::prelude::*;
use vstd::slice::slice_subrange;
use vstd::string::*;

verus! {

/// The error type of the XML reader.
#[verifier::external_type_specification]
#[verifier::external_body]
pub struct ExXmlError(quick_xml::Error);

/// The error type of the XML reader's unescaping.
#[verifier::external_type_specification]
#[verifier::external_body]
pub struct ExEscapeError(quick_xml::escape::EscapeError);

/// One event of the XML reader, as it comes.
pub enum RawToken {
    /// `<name ...>`
    Open(String),
    /// `</name>`
    Close(String),
    /// `<name ... />`
    Empty(String),
    /// Character data or a CDATA section.
    Text(String),
    /// `&name;`, by its name.
    Reference(String),
    /// A comment, declaration, processing instruction or document type.
    Other,
    /// The end of the input.
    End,
}

/// The view of a [`RawToken`].
pub enum RawTokenView {
    Open(Seq<char>),
    Close(Seq<char>),
    Empty(Seq<char>),
    Text(Seq<char>),
    Reference(Seq<char>),
    Other,
    End,
}

impl View for RawToken {
    type V = RawTokenView;

    open spec fn view(&self) -> RawTokenView {
        match self {
            RawToken::Open(n) => RawTokenView::Open(n@),
            RawToken::Close(n) => RawTokenView::Close(n@),
            RawToken::Empty(n) => RawTokenView::Empty(n@),
            RawToken::Text(t) => RawTokenView::Text(t@),
            RawToken::Reference(n) => RawTokenView::Reference(n@),
            RawToken::Other => RawTokenView::Other,
            RawToken::End => RawTokenView::End,
        }
    }
}

/// One token of a document's structure, references resolved.
#[derive(Clone, Debug, PartialEq, Eq)]
pub enum XmlToken {
    /// `<name ...>`
    Open(String),
    /// `</name>`
    Close(String),
    /// `<name ... />`
    Empty(String),
    /// Character data.
    Text(String),
}

/// The view of an [`XmlToken`].
pub enum XmlTokenView {
    Open(Seq<char>),
    Close(Seq<char>),
    Empty(Seq<char>),
    Text(Seq<char>),
}

impl View for XmlToken {
    type V = XmlTokenView;

    open spec fn view(&self) -> XmlTokenView {
        match self {
            XmlToken::Open(n) => XmlTokenView::Open(n@),
            XmlToken::Close(n) => XmlTokenView::Close(n@),
            XmlToken::Empty(n) => XmlTokenView::Empty(n@),
            XmlToken::Text(t) => XmlTokenView::Text(t@),
        }
    }
}

/// The views of a sequence of tokens.
pub open spec fn tokens_view(tokens: Seq<XmlToken>) -> Seq<XmlTokenView> {
    tokens.map_values(|t: XmlToken| t@)
}

/// The first event that the XML reader finds in `input`, with the number of bytes that it
/// read for it; `None` where the reader reports an error.
pub uninterp spec fn xml_first_token(input: Seq<u8>) -> Option<(RawTokenView, nat)>;

/// The text that `raw` stands for once the XML reader has unescaped it; `None` where it
/// cannot.
pub uninterp spec fn xml_unescaped(raw: Seq<char>) -> Option<Seq<char>>;

/// Reads the first event of `input` with a fresh `quick_xml::Reader` (`read_event`), which is
/// told not to object to a closing tag that it saw no opening tag for, and reports the
/// reader's `buffer_position` after it. The contract only names the result: the same bytes
/// always give the same event and the same position. Input that begins with a byte-order
/// mark is left out because a fresh reader drops the mark without counting it.
#[verifier::external_body]
fn first_token(input: &[u8]) -> (r: Result<(RawToken, u64), quick_xml::Error>)
    requires
        !has_byte_order_mark(input@),
    ensures
        match r {
            Ok((token, used)) => xml_first_token(input@) == Some((token@, used as nat)),
            Err(_) => xml_first_token(input@) is None,
        },
{
    let mut reader = Reader::from_reader(input);
    reader.config_mut().allow_unmatched_ends = true;
    let token = match reader.read_event()? {
        Event::Start(e) => RawToken::Open(e.name().0.into()),
        Event::End(e) => RawToken::Close(e.name().0.into()),
        Event::Empty(e) => RawToken::Empty(e.name().0.into()),
        Event::Text(e) => RawToken::Text(e.into_inner().into()),
        Event::CData(e) => RawToken::Text(e.into_inner().into()),
        Event::GeneralRef(e) => RawToken::Reference(e.into_inner().into()),
        Event::Eof => RawToken::End,
        _ => RawToken::Other,
    };
    Ok((token, reader.buffer_position()))
}

/// Unescapes `raw` with `quick_xml::escape::unescape`, which replaces the predefined entities
/// and the character references. The contract only names the result.
#[verifier::external_body]
fn unescape(raw: &str) -> (r: Result<String, quick_xml::escape::EscapeError>)
    ensures
        match r {
            Ok(text) => xml_unescaped(raw@) == Some(text@),
            Err(_) => xml_unescaped(raw@) is None,
        },
{
    Ok(quick_xml::escape::unescape(raw)?.into_owned())
}

/// Whether `input` begins with the UTF-8 byte-order mark.
pub open spec fn has_byte_order_mark(input: Seq<u8>) -> bool {
    input.len() >= 3 && input[0] == 0xEF && input[1] == 0xBB && input[2] == 0xBF
}

/// The text that the reference `&name;` stands for.
pub open spec fn reference_text(name: Seq<char>) -> Option<Seq<char>> {
    xml_unescaped(seq!['&'] + name + seq![';'])
}

/// What a raw token adds to the structure of a document: nothing for what the parser passes
/// over, text for a reference.
pub open spec fn settled(token: RawTokenView) -> Result<Option<XmlTokenView>, ParseFault> {
    match token {
        RawTokenView::Open(n) => Ok(Some(XmlTokenView::Open(n))),
        RawTokenView::Close(n) => Ok(Some(XmlTokenView::Close(n))),
        RawTokenView::Empty(n) => Ok(Some(XmlTokenView::Empty(n))),
        RawTokenView::Text(t) => Ok(Some(XmlTokenView::Text(t))),
        RawTokenView::Reference(n) => match reference_text(n) {
            Some(t) => Ok(Some(XmlTokenView::Text(t))),
            None => Err(fault_about(ParseErrorKind::Reference, n)),
        },
        RawTokenView::Other => Ok(None),
        RawTokenView::End => Ok(None),
    }
}

/// `first`, if there is one, followed by `rest`.
pub open spec fn followed_by(first: Option<XmlTokenView>, rest: Seq<XmlTokenView>) -> Seq<
    XmlTokenView,
> {
    match first {
        Some(t) => seq![t] + rest,
        None => rest,
    }
}

/// The character that a byte-order mark spells.
pub open spec fn mark_text() -> Seq<char> {
    seq!['\u{feff}']
}

/// The tokens of `input`, read one after the other until the reader reports the end. A
/// byte-order mark where a token begins is text, as it is to a reader that has read what
/// stands before it. An error of the reader, and a token for which the reader read nothing
/// or more than there is, are syntax errors.
pub open spec fn tokens_from(input: Seq<u8>) -> Result<Seq<XmlTokenView>, ParseFault>
    decreases input.len(),
{
    if has_byte_order_mark(input) {
        match tokens_from(input.skip(3)) {
            Err(e) => Err(e),
            Ok(rest) => Ok(seq![XmlTokenView::Text(mark_text())] + rest),
        }
    } else {
        match xml_first_token(input) {
            None => Err(fault(ParseErrorKind::Syntax)),
            Some((token, used)) => if token is End {
                Ok(Seq::empty())
            } else if used == 0 || used > input.len() {
                Err(fault(ParseErrorKind::Syntax))
            } else {
                match settled(token) {
                    Err(e) => Err(e),
                    Ok(first) => match tokens_from(input.skip(used as int)) {
                        Err(e) => Err(e),
                        Ok(rest) => Ok(followed_by(first, rest)),
                    },
                }
            },
        }
    }
}

/// The tokens of a document. A byte-order mark at its very start is passed over.
pub open spec fn document_tokens(doc: Seq<u8>) -> Result<Seq<XmlTokenView>, ParseFault> {
    if has_byte_order_mark(doc) {
        tokens_from(doc.skip(3))
    } else {
        tokens_from(doc)
    }
}

/// The view of the result of [`tokenize`].
pub open spec fn tokens_result(r: Result<Vec<XmlToken>, ParseError>) -> Result<
    Seq<XmlTokenView>,
    ParseFault,
> {
    match r {
        Ok(tokens) => Ok(tokens_view(tokens@)),
        Err(e) => Err(e@),
    }
}

/// `head` before the tokens of `tail`, where `tail` has any.
pub open spec fn after(head: Seq<XmlTokenView>, tail: Result<Seq<XmlTokenView>, ParseFault>)
    -> Result<Seq<XmlTokenView>, ParseFault> {
    match tail {
        Ok(rest) => Ok(head + rest),
        Err(e) => Err(e),
    }
}

fn starts_with_mark(input: &[u8]) -> (r: bool)
    ensures
        r == has_byte_order_mark(input@),
{
    input.len() >= 3 && input[0] == 0xEF && input[1] == 0xBB && input[2] == 0xBF
}

/// Resolves a raw token: see [`settled`].
fn settle(token: RawToken) -> (r: Result<Option<XmlToken>, ParseError>)
    ensures
        match r {
            Ok(Some(t)) => settled(token@) == Ok::<_, ParseFault>(Some(t@)),
            Ok(None) => settled(token@) == Ok::<Option<XmlTokenView>, ParseFault>(None),
            Err(e) => settled(token@) == Err::<Option<XmlTokenView>, _>(e@),
        },
{
    match token {
        RawToken::Open(n) => Ok(Some(XmlToken::Open(n))),
        RawToken::Close(n) => Ok(Some(XmlToken::Close(n))),
        RawToken::Empty(n) => Ok(Some(XmlToken::Empty(n))),
        RawToken::Text(t) => Ok(Some(XmlToken::Text(t))),
        RawToken::Reference(n) => {
            let mut raw = String::from_str("&");
            raw.append(n.as_str());
            raw.append(";");
            proof {
                reveal_strlit("&");
                reveal_strlit(";");
                assert("&"@ =~= seq!['&']);
                assert(";"@ =~= seq![';']);
            }
            match unescape(raw.as_str()) {
                Ok(text) => Ok(Some(XmlToken::Text(text))),
                Err(_) => Err(ParseError { kind: ParseErrorKind::Reference, subject: n }),
            }
        },
        RawToken::Other => Ok(None),
        RawToken::End => Ok(None),
    }
}

/// Reads a document into its tokens.
pub fn tokenize(doc: &[u8]) -> (r: Result<Vec<XmlToken>, ParseError>)
    ensures
        tokens_result(r) == document_tokens(doc@),
{
    let mut pos: usize = if starts_with_mark(doc) {
        3
    } else {
        0
    };
    let mut out: Vec<XmlToken> = Vec::new();
    proof {
        assert(tokens_view(out@) =~= Seq::empty());
        assert(doc@.skip(0) =~= doc@);
        let tail = tokens_from(doc@.skip(pos as int));
        if tail is Ok {
            assert(tokens_view(out@) + tail->Ok_0 =~= tail->Ok_0);
        }
    }
    loop
        invariant
            pos <= doc@.len(),
            document_tokens(doc@) == after(tokens_view(out@), tokens_from(doc@.skip(pos as int))),
        decreases doc@.len() - pos,
    {
        let rest = slice_subrange(doc, pos, doc.len());
        assert(rest@ =~= doc@.skip(pos as int));
        if starts_with_mark(rest) {
            let ghost before = tokens_view(out@);
            let mark = String::from_str("\u{feff}");
            proof {
                reveal_strlit("\u{feff}");
                assert(mark@ =~= mark_text());
            }
            out.push(XmlToken::Text(mark));
            proof {
                assert(tokens_view(out@) =~= before + seq![XmlTokenView::Text(mark_text())]);
                assert(rest@.skip(3) =~= doc@.skip(pos + 3));
                let tail = tokens_from(doc@.skip(pos + 3));
                if tail is Ok {
                    assert(before + (seq![XmlTokenView::Text(mark_text())] + tail->Ok_0)
                        =~= tokens_view(out@) + tail->Ok_0);
                }
            }
            pos = pos + 3;
            continue ;
        }
        match first_token(rest) {
            Err(_) => {
                return Err(ParseError::bare(ParseErrorKind::Syntax));
            },
            Ok((token, used)) => {
                if let RawToken::End = token {
                    assert(tokens_view(out@) + Seq::<XmlTokenView>::empty() =~= tokens_view(out@));
                    return Ok(out);
                }
                if used == 0 || used > (rest.len() as u64) {
                    return Err(ParseError::bare(ParseErrorKind::Syntax));
                }
                let ghost before = tokens_view(out@);
                let ghost raw = token@;
                match settle(token) {
                    Err(e) => {
                        return Err(e);
                    },
                    Ok(Some(t)) => {
                        out.push(t);
                        assert(tokens_view(out@) =~= before + seq![t@]);
                    },
                    Ok(None) => {},
                }
                proof {
                    let tail = tokens_from(rest@.skip(used as int));
                    assert(rest@.skip(used as int) =~= doc@.skip(pos + used));
                    if tail is Ok {
                        let first = settled(raw)->Ok_0;
                        assert(before + followed_by(first, tail->Ok_0) =~= tokens_view(out@)
                            + tail->Ok_0);
                    }
                }
                pos = pos + used as usize;
            },
        }
    }
}

/// One element of a document, reported when it closes: how deep it stands (the root at depth
/// one), its name, and the character data directly inside it.
#[derive(Clone, Debug, PartialEq, Eq)]
pub struct XmlElement {
    pub depth: usize,
    pub name: String,
    pub text: String,
}

/// The view of an [`XmlElement`].
pub struct ElementView {
    pub depth: nat,
    pub name: Seq<char>,
    pub text: Seq<char>,
}

impl View for XmlElement {
    type V = ElementView;

    open spec fn view(&self) -> ElementView {
        ElementView { depth: self.depth as nat, name: self.name@, text: self.text@ }
    }
}

impl XmlElement {
    /// A copy of the element.
    pub fn clone_element(&self) -> (r: XmlElement)
        ensures
            r@ == self@,
    {
        XmlElement { depth: self.depth, name: self.name.clone(), text: self.text.clone() }
    }
}

/// The views of a sequence of elements.
pub open spec fn elements_view(elements: Seq<XmlElement>) -> Seq<ElementView> {
    elements.map_values(|e: XmlElement| e@)
}

/// Where the reading of a token sequence stands: the elements that are open, outermost
/// first, those that have closed, in the order of their closing, and whether the root has
/// closed.
pub struct Scan {
    pub open: Seq<ElementView>,
    pub done: Seq<ElementView>,
    pub closed: bool,
}

/// An element named `name` that opens inside `open` elements.
pub open spec fn opened(open: nat, name: Seq<char>) -> ElementView {
    ElementView { depth: open + 1, name, text: Seq::empty() }
}

/// The reading after one more token. A second root, a closing tag with nothing open, a
/// closing tag of another name than the innermost open element, and text other than white
/// space before the root are errors; white space before the root and text after it are
/// passed over.
pub open spec fn scan_step(s: Scan, token: XmlTokenView) -> Result<Scan, ParseFault> {
    match token {
        XmlTokenView::Open(n) => if s.open.len() == 0 && s.closed {
            Err(fault_about(ParseErrorKind::ExtraRoot, n))
        } else {
            Ok(Scan { open: s.open.push(opened(s.open.len(), n)), ..s })
        },
        XmlTokenView::Empty(n) => if s.open.len() == 0 && s.closed {
            Err(fault_about(ParseErrorKind::ExtraRoot, n))
        } else {
            Ok(
                Scan {
                    done: s.done.push(opened(s.open.len(), n)),
                    closed: s.closed || s.open.len() == 0,
                    ..s
                },
            )
        },
        XmlTokenView::Close(n) => if s.open.len() == 0 {
            Err(fault_about(ParseErrorKind::UnexpectedClose, n))
        } else if s.open.last().name != n {
            Err(fault_about(ParseErrorKind::MismatchedClose, n))
        } else {
            Ok(
                Scan {
                    open: s.open.drop_last(),
                    done: s.done.push(s.open.last()),
                    closed: s.closed || s.open.len() == 1,
                },
            )
        },
        XmlTokenView::Text(t) => if s.open.len() == 0 {
            if s.closed || is_blank(t) {
                Ok(s)
            } else {
                Err(fault(ParseErrorKind::Syntax))
            }
        } else {
            let top = s.open.last();
            Ok(
                Scan {
                    open: s.open.drop_last().push(ElementView { text: top.text + t, ..top }),
                    ..s
                },
            )
        },
    }
}

/// The reading of a whole token sequence, from nothing open and nothing closed.
pub open spec fn scan(tokens: Seq<XmlTokenView>) -> Result<Scan, ParseFault>
    decreases tokens.len(),
{
    if tokens.len() == 0 {
        Ok(Scan { open: Seq::empty(), done: Seq::empty(), closed: false })
    } else {
        match scan(tokens.drop_last()) {
            Err(e) => Err(e),
            Ok(s) => scan_step(s, tokens.last()),
        }
    }
}

/// The elements that a token sequence spells, in the order of their closing. The sequence
/// must close every element that it opens and hold a root.
pub open spec fn elements_of(tokens: Seq<XmlTokenView>) -> Result<Seq<ElementView>, ParseFault> {
    match scan(tokens) {
        Err(e) => Err(e),
        Ok(s) => if s.open.len() > 0 {
            Err(fault_about(ParseErrorKind::Unclosed, s.open.last().name))
        } else if !s.closed {
            Err(fault(ParseErrorKind::MissingRoot))
        } else {
            Ok(s.done)
        },
    }
}

/// The view of the result of [`collect_elements`].
pub open spec fn elements_result(r: Result<Vec<XmlElement>, ParseError>) -> Result<
    Seq<ElementView>,
    ParseFault,
> {
    match r {
        Ok(elements) => Ok(elements_view(elements@)),
        Err(e) => Err(e@),
    }
}

/// Reads a token sequence into the elements that it spells.
pub fn collect_elements(tokens: &[XmlToken]) -> (r: Result<Vec<XmlElement>, ParseError>)
    ensures
        elements_result(r) == elements_of(tokens_view(tokens@)),
{
    let ghost all = tokens_view(tokens@);
    let mut open: Vec<XmlElement> = Vec::new();
    let mut done: Vec<XmlElement> = Vec::new();
    let mut closed = false;
    let mut i: usize = 0;
    proof {
        assert(elements_view(open@) =~= Seq::empty());
        assert(elements_view(done@) =~= Seq::empty());
        assert(all.take(0) =~= Seq::empty());
    }
    while i < tokens.len()
        invariant
            i <= tokens@.len(),
            all == tokens_view(tokens@),
            open@.len() <= i,
            scan(all.take(i as int)) == Ok::<_, ParseFault>(
                Scan { open: elements_view(open@), done: elements_view(done@), closed },
            ),
        decreases tokens@.len() - i,
    {
        let ghost before = Scan { open: elements_view(open@), done: elements_view(done@), closed };
        proof {
            assert(all.take(i + 1).drop_last() =~= all.take(i as int));
            assert(all.take(i + 1).last() == tokens@[i as int]@);
            if i + 1 == tokens@.len() {
                assert(all.take(i + 1) =~= all);
            }
        }
        match &tokens[i] {
            XmlToken::Open(n) => {
                if open.len() == 0 && closed {
                    proof {
                        lemma_scan_fails(all, i + 1);
                    }
                    return Err(ParseError::about(ParseErrorKind::ExtraRoot, n.as_str()));
                }
                let e = XmlElement { depth: open.len() + 1, name: n.clone(), text: String::new() };
                open.push(e);
                assert(elements_view(open@) =~= before.open.push(opened(before.open.len(), n@)));
            },
            XmlToken::Empty(n) => {
                if open.len() == 0 && closed {
                    proof {
                        lemma_scan_fails(all, i + 1);
                    }
                    return Err(ParseError::about(ParseErrorKind::ExtraRoot, n.as_str()));
                }
                let e = XmlElement { depth: open.len() + 1, name: n.clone(), text: String::new() };
                done.push(e);
                closed = closed || open.len() == 0;
                assert(elements_view(done@) =~= before.done.push(opened(before.open.len(), n@)));
            },
            XmlToken::Close(n) => {
                match open.pop() {
                    None => {
                        proof {
                            lemma_scan_fails(all, i + 1);
                        }
                        return Err(
                            ParseError::about(ParseErrorKind::UnexpectedClose, n.as_str()),
                        );
                    },
                    Some(top) => {
                        assert(top@ == before.open.last());
                        if !crate::text::same_text(top.name.as_str(), n.as_str()) {
                            proof {
                                lemma_scan_fails(all, i + 1);
                            }
                            return Err(
                                ParseError::about(ParseErrorKind::MismatchedClose, n.as_str()),
                            );
                        }
                        closed = closed || open.len() == 0;
                        done.push(top);
                        assert(elements_view(open@) =~= before.open.drop_last());
                        assert(elements_view(done@) =~= before.done.push(before.open.last()));
                    },
                }
            },
            XmlToken::Text(t) => {
                match open.pop() {
                    None => {
                        if !closed && !blank(t.as_str()) {
                            proof {
                                lemma_scan_fails(all, i + 1);
                            }
                            return Err(ParseError::bare(ParseErrorKind::Syntax));
                        }
                    },
                    Some(top) => {
                        let XmlElement { depth, name, mut text } = top;
                        text.append(t.as_str());
                        open.push(XmlElement { depth, name, text });
                        assert(elements_view(open@) =~= before.open.drop_last().push(
                            ElementView {
                                text: before.open.last().text + t@,
                                ..before.open.last()
                            },
                        ));
                    },
                }
            },
        }
        i += 1;
    }
    proof {
        assert(all.take(i as int) =~= all);
    }
    if open.len() > 0 {
        let top = &open[open.len() - 1];
        return Err(ParseError::about(ParseErrorKind::Unclosed, top.name.as_str()));
    }
    if !closed {
        return Err(ParseError::bare(ParseErrorKind::MissingRoot));
    }
    Ok(done)
}

/// A reading that fails on a prefix fails on the whole with the same fault.
proof fn lemma_scan_fails(tokens: Seq<XmlTokenView>, n: int)
    requires
        0 <= n <= tokens.len(),
        scan(tokens.take(n)) is Err,
    ensures
        scan(tokens) == scan(tokens.take(n)),
    decreases tokens.len() - n,
{
    if n == tokens.len() {
        assert(tokens.take(n) =~= tokens);
    } else {
        assert(tokens.take(n + 1).drop_last() =~= tokens.take(n));
        lemma_scan_fails(tokens, n + 1);
    }
}

} // verus!
