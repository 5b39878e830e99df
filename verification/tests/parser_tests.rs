use eopkginst::error::{ParseError, ParseErrorKind};
use eopkginst::number::{parse_decimal, parse_octal};
use eopkginst::parser::{
    files_from_elements, metadata_from_elements, parse_files_xml, parse_metadata_xml,
    read_elements, File, Files,
};
use eopkginst::xml::{collect_elements, tokenize, XmlElement, XmlToken};

fn entry_xml(path: &str, kind: &str, size: &str, mode: &str, hash: &str) -> String {
    format!(
        "<File><Path>{}</Path><Type>{}</Type><Size>{}</Size><Uid>0</Uid><Gid>0</Gid><Mode>{}</Mode><Hash>{}</Hash></File>",
        path, kind, size, mode, hash
    )
}

fn element(depth: usize, name: &str, text: &str) -> XmlElement {
    XmlElement { depth, name: name.to_string(), text: text.to_string() }
}

fn error(kind: ParseErrorKind, subject: &str) -> ParseError {
    ParseError { kind, subject: subject.to_string() }
}

#[test]
fn file_list_keeps_document_order_and_fields() {
    let doc = format!(
        "<?xml version=\"1.0\"?>\n<Files>\n  {}\n  <!-- a comment -->\n  {}\n</Files>\n",
        entry_xml("usr/bin/app", "executable", "12", "0755", "AABB"),
        entry_xml("etc/app.conf", "config", "3", "644", "ccdd"),
    );
    let files = parse_files_xml(&doc).unwrap();
    assert_eq!(files.File.len(), 2);
    assert_eq!(
        files.File[0],
        File {
            Path: "usr/bin/app".to_string(),
            Type: "executable".to_string(),
            Size: 12,
            Uid: 0,
            Gid: 0,
            Mode: "0755".to_string(),
            Hash: "AABB".to_string(),
        }
    );
    assert_eq!(files.File[1].Path, "etc/app.conf");
    assert_eq!(files.File[1].mode_bits(), Some(0o644));
}

#[test]
fn empty_file_list_is_accepted() {
    assert_eq!(parse_files_xml("<Files></Files>").unwrap(), Files { File: vec![] });
    assert_eq!(parse_files_xml("<Files/>").unwrap(), Files { File: vec![] });
}

#[test]
fn every_entry_field_is_required() {
    let fields = [
        ("Path", "<Path>a</Path>"),
        ("Type", "<Type>data</Type>"),
        ("Size", "<Size>1</Size>"),
        ("Uid", "<Uid>0</Uid>"),
        ("Gid", "<Gid>0</Gid>"),
        ("Mode", "<Mode>644</Mode>"),
        ("Hash", "<Hash>00</Hash>"),
    ];
    for (missing, _) in fields.iter() {
        let mut doc = String::from("<Files><File>");
        for (name, text) in fields.iter() {
            if name != missing {
                doc.push_str(text);
            }
        }
        doc.push_str("</File></Files>");
        assert_eq!(parse_files_xml(&doc), Err(error(ParseErrorKind::MissingField, missing)));
    }
}

#[test]
fn empty_text_fields_are_present() {
    let doc = format!("<Files>{}</Files>", entry_xml("", "", "1", "", ""));
    let files = parse_files_xml(&doc).unwrap();
    assert_eq!(files.File.len(), 1);
    assert_eq!(files.File[0].Path, "");
    assert_eq!(files.File[0].Type, "");
    assert_eq!(files.File[0].Mode, "");
    assert_eq!(files.File[0].Hash, "");
    assert_eq!(files.File[0].mode_bits(), None);
    let doc = "<Files><File><Path/><Type/><Size>1</Size><Uid>0</Uid><Gid>0</Gid><Mode/><Hash/></File></Files>";
    assert_eq!(parse_files_xml(doc).unwrap().File[0].Path, "");
    let doc = format!("<Files>{}</Files>", entry_xml("a", "t", "", "644", "00"));
    assert_eq!(parse_files_xml(&doc), Err(error(ParseErrorKind::InvalidField, "Size")));
}

#[test]
fn first_missing_field_is_reported() {
    let doc = "<Files><File><Path>a</Path><Size>1</Size></File></Files>";
    assert_eq!(parse_files_xml(doc), Err(error(ParseErrorKind::MissingField, "Type")));
}

#[test]
fn malformed_numbers_name_their_field() {
    let doc = format!("<Files>{}</Files>", entry_xml("a", "data", "12x", "644", "00"));
    assert_eq!(parse_files_xml(&doc), Err(error(ParseErrorKind::InvalidField, "Size")));
    let doc = format!("<Files>{}</Files>", entry_xml("a", "data", "-1", "644", "00"));
    assert_eq!(parse_files_xml(&doc), Err(error(ParseErrorKind::InvalidField, "Size")));
    let doc = "<Files><File><Path>a</Path><Type>t</Type><Size>1</Size><Uid>0</Uid><Gid>0x10</Gid><Mode>644</Mode><Hash>00</Hash></File></Files>";
    assert_eq!(parse_files_xml(doc), Err(error(ParseErrorKind::InvalidField, "Gid")));
    let doc = "<Files><File><Path>a</Path><Type>t</Type><Size>1</Size><Uid>4294967296</Uid><Gid>0</Gid><Mode>644</Mode><Hash>00</Hash></File></Files>";
    assert_eq!(parse_files_xml(doc), Err(error(ParseErrorKind::InvalidField, "Uid")));
}

#[test]
fn size_takes_the_whole_range() {
    let doc = format!(
        "<Files>{}</Files>",
        entry_xml("a", "data", "18446744073709551615", "7777", "00")
    );
    let files = parse_files_xml(&doc).unwrap();
    assert_eq!(files.File[0].Size, u64::MAX);
    assert_eq!(files.File[0].mode_bits(), Some(0o7777));
    let doc = format!(
        "<Files>{}</Files>",
        entry_xml("a", "data", "18446744073709551616", "644", "00")
    );
    assert_eq!(parse_files_xml(&doc), Err(error(ParseErrorKind::InvalidField, "Size")));
}

#[test]
fn repeated_path_is_kept() {
    let doc = format!(
        "<Files>{}{}{}</Files>",
        entry_xml("a", "data", "1", "644", "00"),
        entry_xml("b", "data", "1", "644", "00"),
        entry_xml("a", "data", "2", "600", "11"),
    );
    let files = parse_files_xml(&doc).unwrap();
    assert_eq!(files.File.len(), 3);
    assert_eq!(files.File[0].Path, "a");
    assert_eq!(files.File[0].Size, 1);
    assert_eq!(files.File[1].Path, "b");
    assert_eq!(files.File[2].Path, "a");
    assert_eq!(files.File[2].Size, 2);
    assert_eq!(files.File[2].Mode, "600");
}

#[test]
fn mode_is_any_text() {
    let doc = format!(
        "<Files>{}{}{}</Files>",
        entry_xml("a", "data", "1", "0999", "00"),
        entry_xml("b", "data", "1", "17777", "00"),
        entry_xml("c", "data", "1", "rwxr-xr-x", "00"),
    );
    let files = parse_files_xml(&doc).unwrap();
    assert_eq!(files.File[0].Mode, "0999");
    assert_eq!(files.File[0].mode_bits(), None);
    assert_eq!(files.File[1].mode_bits(), None);
    assert_eq!(files.File[2].Mode, "rwxr-xr-x");
    assert_eq!(files.File[2].mode_bits(), None);
}

#[test]
fn unknown_elements_are_passed_over() {
    let doc = format!(
        "<Files><Note><Path>ignored</Path></Note>{}<Other/></Files>",
        "<File><Extra>x</Extra><Path>a</Path><Type>t</Type><Size>1</Size><Uid>1</Uid><Gid>2</Gid><Mode>600</Mode><Hash>ab</Hash></File>"
    );
    let files = parse_files_xml(&doc).unwrap();
    assert_eq!(files.File.len(), 1);
    assert_eq!(files.File[0].Path, "a");
    assert_eq!(files.File[0].Uid, 1);
    assert_eq!(files.File[0].Gid, 2);
}

#[test]
fn repeated_field_is_rejected() {
    let doc = "<Files><File><Path>first</Path><Path>second</Path><Type>t</Type><Size>1</Size><Uid>0</Uid><Gid>0</Gid><Mode>600</Mode><Hash>ab</Hash></File></Files>";
    assert_eq!(parse_files_xml(doc), Err(error(ParseErrorKind::RepeatedField, "Path")));
    let doc = "<Files><File><Path>p</Path><Type>t</Type><Size>1</Size><Uid>0</Uid><Gid>0</Gid><Mode>600</Mode><Hash>ab</Hash><Hash>ab</Hash></File></Files>";
    assert_eq!(parse_files_xml(doc), Err(error(ParseErrorKind::RepeatedField, "Hash")));
    // an element that names no field may stand as often as it likes
    let doc = "<Files><File><X/><Path>p</Path><X/><Type>t</Type><Size>1</Size><Uid>0</Uid><Gid>0</Gid><Mode>600</Mode><Hash>ab</Hash></File></Files>";
    assert_eq!(parse_files_xml(doc).unwrap().File[0].Path, "p");
    assert_eq!(
        parse_metadata_xml("<P><Name>a</Name><Summary>x</Summary><Summary>y</Summary></P>"),
        Err(error(ParseErrorKind::RepeatedField, "Summary"))
    );
    assert_eq!(
        parse_metadata_xml("<P><Name>a</Name><Name>a</Name></P>"),
        Err(error(ParseErrorKind::RepeatedField, "Name"))
    );
}

#[test]
fn text_before_the_root_is_rejected() {
    assert_eq!(parse_files_xml("junk<Files></Files>"), Err(error(ParseErrorKind::Syntax, "")));
    assert_eq!(parse_files_xml(" x <Files/>"), Err(error(ParseErrorKind::Syntax, "")));
    assert_eq!(parse_files_xml("&amp;<Files/>"), Err(error(ParseErrorKind::Syntax, "")));
    assert_eq!(parse_files_xml("<![CDATA[x]]><Files/>"), Err(error(ParseErrorKind::Syntax, "")));
    assert_eq!(
        parse_metadata_xml("junk<P><Name>a</Name></P>"),
        Err(error(ParseErrorKind::Syntax, ""))
    );
    // a second byte-order mark is text, and not white space
    assert_eq!(
        parse_files_xml("\u{feff}\u{feff}<Files/>"),
        Err(error(ParseErrorKind::Syntax, ""))
    );
    // white space, comments and the declaration may stand before the root
    assert_eq!(
        parse_files_xml("\u{feff} \t\r\n<?xml version=\"1.0\"?>\n<!-- c -->\n<Files/>").unwrap(),
        Files { File: vec![] }
    );
    // text after the root is passed over
    assert_eq!(parse_files_xml("<Files/>junk").unwrap(), Files { File: vec![] });
    assert_eq!(
        collect_elements(&[
            XmlToken::Text("junk".to_string()),
            XmlToken::Open("Files".to_string()),
            XmlToken::Close("Files".to_string()),
        ]),
        Err(error(ParseErrorKind::Syntax, ""))
    );
}

#[test]
fn references_and_cdata_are_resolved() {
    let doc = format!(
        "<Files>{}</Files>",
        entry_xml("a&amp;b&#x2F;c&lt;", "<![CDATA[x<y]]>", "1", "644", "00")
    );
    let files = parse_files_xml(&doc).unwrap();
    assert_eq!(files.File[0].Path, "a&b/c<");
    assert_eq!(files.File[0].Type, "x<y");
}

#[test]
fn unknown_reference_is_reported() {
    let doc = format!("<Files>{}</Files>", entry_xml("a&nope;b", "t", "1", "644", "00"));
    assert_eq!(parse_files_xml(&doc), Err(error(ParseErrorKind::Reference, "nope")));
}

#[test]
fn structure_errors_are_reported() {
    assert_eq!(parse_files_xml(""), Err(error(ParseErrorKind::MissingRoot, "")));
    assert_eq!(parse_files_xml("  \n"), Err(error(ParseErrorKind::MissingRoot, "")));
    assert_eq!(
        parse_files_xml("<Files><File></Files>"),
        Err(error(ParseErrorKind::MismatchedClose, "Files"))
    );
    assert_eq!(parse_files_xml("<Files><File>"), Err(error(ParseErrorKind::Unclosed, "File")));
    assert_eq!(parse_files_xml("</Files>"), Err(error(ParseErrorKind::UnexpectedClose, "Files")));
    assert_eq!(
        parse_files_xml("<Files/><More/>"),
        Err(error(ParseErrorKind::ExtraRoot, "More"))
    );
    assert_eq!(parse_files_xml("<Files"), Err(error(ParseErrorKind::Syntax, "")));
}

#[test]
fn byte_order_mark_is_accepted_at_the_start_only() {
    let tokens = tokenize(b"\xEF\xBB\xBF<a>x</a>").unwrap();
    assert_eq!(
        tokens,
        vec![
            XmlToken::Open("a".to_string()),
            XmlToken::Text("x".to_string()),
            XmlToken::Close("a".to_string()),
        ]
    );
    // anywhere else the mark is text
    assert_eq!(
        tokenize(b"<a>\xEF\xBB\xBFx</a>").unwrap(),
        vec![
            XmlToken::Open("a".to_string()),
            XmlToken::Text("\u{feff}".to_string()),
            XmlToken::Text("x".to_string()),
            XmlToken::Close("a".to_string()),
        ]
    );
    assert_eq!(
        tokenize(b"\xEF\xBB\xBF\xEF\xBB\xBF<a/>").unwrap(),
        vec![XmlToken::Text("\u{feff}".to_string()), XmlToken::Empty("a".to_string())]
    );
    let doc = "<Files><File><Path>\u{feff}a</Path><Type>t\u{feff}</Type><Size>1</Size><Uid>0</Uid><Gid>0</Gid><Mode>644</Mode><Hash>00</Hash></File></Files>";
    let files = parse_files_xml(doc).unwrap();
    assert_eq!(files.File[0].Path, "\u{feff}a");
    assert_eq!(files.File[0].Type, "t\u{feff}");
}

#[test]
fn tokens_come_in_document_order() {
    let tokens = tokenize(b"<?xml version=\"1.0\"?><r a=\"1\"><e/>t&gt;<!--c--></r>").unwrap();
    assert_eq!(
        tokens,
        vec![
            XmlToken::Open("r".to_string()),
            XmlToken::Empty("e".to_string()),
            XmlToken::Text("t".to_string()),
            XmlToken::Text(">".to_string()),
            XmlToken::Close("r".to_string()),
        ]
    );
}

#[test]
fn invalid_utf8_is_a_syntax_error() {
    assert_eq!(tokenize(b"<a>\xff</a>"), Err(error(ParseErrorKind::Syntax, "")));
}

#[test]
fn elements_close_innermost_first() {
    let tokens = vec![
        XmlToken::Text(" ".to_string()),
        XmlToken::Open("r".to_string()),
        XmlToken::Text("a".to_string()),
        XmlToken::Open("x".to_string()),
        XmlToken::Text("1".to_string()),
        XmlToken::Text("2".to_string()),
        XmlToken::Close("x".to_string()),
        XmlToken::Empty("y".to_string()),
        XmlToken::Text("b".to_string()),
        XmlToken::Close("r".to_string()),
    ];
    assert_eq!(
        collect_elements(&tokens).unwrap(),
        vec![element(2, "x", "12"), element(2, "y", ""), element(1, "r", "ab")]
    );
}

#[test]
fn file_list_from_given_elements() {
    let elements = vec![
        element(3, "Path", "bin/app"),
        element(3, "Type", "directory"),
        element(3, "Size", "0"),
        element(3, "Uid", "10"),
        element(3, "Gid", "20"),
        element(3, "Mode", "750"),
        element(3, "Hash", "-"),
        element(2, "File", ""),
        element(1, "Files", ""),
    ];
    let files = files_from_elements(&elements).unwrap();
    assert_eq!(files.File.len(), 1);
    assert!(files.File[0].is_directory());
    assert_eq!(files.File[0].Uid, 10);
    assert_eq!(files.File[0].Gid, 20);
    assert_eq!(files.File[0].path_bytes(), b"bin/app");
    // fields at another depth do not belong to the entry
    let elements = vec![element(4, "Path", "deep"), element(2, "File", ""), element(1, "Files", "")];
    assert_eq!(files_from_elements(&elements), Err(error(ParseErrorKind::MissingField, "Path")));
}

#[test]
fn metadata_requires_only_the_name() {
    let m = parse_metadata_xml("<PISI><Name>app</Name></PISI>").unwrap();
    assert_eq!(m.Name, "app");
    assert_eq!(m.Summary, "");
    assert_eq!(m.Description, "");
    assert_eq!(m.Architecture, "");
    assert_eq!(m.Version, "");
    assert_eq!(m.License, "");
    assert_eq!(
        parse_metadata_xml("<PISI><Summary>s</Summary></PISI>"),
        Err(error(ParseErrorKind::MissingField, "Name"))
    );
    assert_eq!(parse_metadata_xml("<PISI><Name></Name></PISI>").unwrap().Name, "");
}

#[test]
fn metadata_reads_all_fields() {
    let doc = "<Package>\n <Name>app</Name>\n <Summary>An app</Summary>\n <Description>Does things</Description>\n <Architecture>x86_64</Architecture>\n <Version>1.2</Version>\n <License>MIT</License>\n <Nested><Name>inner</Name></Nested>\n</Package>";
    let m = parse_metadata_xml(doc).unwrap();
    assert_eq!(m.Name, "app");
    assert_eq!(m.Summary, "An app");
    assert_eq!(m.Description, "Does things");
    assert_eq!(m.Architecture, "x86_64");
    assert_eq!(m.Version, "1.2");
    assert_eq!(m.License, "MIT");
    let elements = read_elements(doc).unwrap();
    assert_eq!(metadata_from_elements(&elements).unwrap(), m);
}

#[test]
fn numbers_in_decimal_and_octal() {
    assert_eq!(parse_decimal("0", 5), Some(0));
    assert_eq!(parse_decimal("007", 7), Some(7));
    assert_eq!(parse_decimal("8", 7), None);
    assert_eq!(parse_decimal("", 7), None);
    assert_eq!(parse_decimal("+1", 7), None);
    assert_eq!(parse_decimal("1 ", 7), None);
    assert_eq!(parse_decimal("4294967295", u32::MAX as u64), Some(4294967295));
    assert_eq!(parse_octal("755", 0o7777), Some(0o755));
    assert_eq!(parse_octal("8", 0o7777), None);
    assert_eq!(parse_octal("10000", 0o7777), None);
    assert_eq!(parse_decimal("٣", 100), None);
    assert_eq!(parse_decimal("99999999999999999999999", u64::MAX), None);
}

#[test]
fn odd_markup_is_read_or_rejected() {
    let odd: [&[u8]; 24] = [
        b"<!-->",
        b"<!--->",
        b"<!---->",
        b"<![CDATA[]]>",
        b"<![CDATA[",
        b"<?>",
        b"<??>",
        b"<?xml?>",
        b"<!DOCTYPE>",
        b"<!DOCTYPE a [<!ENTITY b 'c'>]>",
        b"</>",
        b"<>",
        b"< >",
        b"</ a >",
        b"&;",
        b"&#;",
        b"&#x110000;",
        b"&",
        b"<a b='>'/>",
        b"<a/ >",
        b"<a><![CDATA[]]]]></a>",
        b"\xEF\xBB",
        b"<a>\xC3</a>",
        b"<\xC3\xA9/>",
    ];
    for input in odd.iter() {
        let tokens = tokenize(input);
        if let Ok(tokens) = tokens {
            let _ = collect_elements(&tokens);
        }
    }
    let alphabet = b"<>!-?/&;[a ";
    let mut input = Vec::new();
    for a in alphabet.iter() {
        for b in alphabet.iter() {
            for c in alphabet.iter() {
                for d in alphabet.iter() {
                    input.clear();
                    input.extend_from_slice(&[*a, *b, *c, *d]);
                    let _ = tokenize(&input);
                    let _ = tokenize(&input[1..]);
                }
            }
        }
    }
}
