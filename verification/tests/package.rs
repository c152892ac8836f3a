//! Package access: directory validation, limits, part reads, relationship
//! resolution and document detection.
use jz_office_core::error::Error;
use jz_office_core::model::Kind;
use jz_office_core::package::{
    add_expanded, document_kind, eq_ignore_ascii_case, parse_reader, relation_part,
    relationship_targets, related_target, resolve, Package, MAX_EXPANDED,
};
use jz_office_core::xml::parse;
use jz_office_core::zip_directory::{entry_count, DirectoryFault};
use std::io::Write;

fn zip_of(entries: &[(&str, &[u8])]) -> Vec<u8> {
    let mut writer = zip::ZipWriter::new(std::io::Cursor::new(Vec::new()));
    let options = zip::write::SimpleFileOptions::default()
        .compression_method(zip::CompressionMethod::Stored);
    for (name, data) in entries {
        writer.start_file(*name, options).unwrap();
        writer.write_all(data).unwrap();
    }
    writer.finish().unwrap().into_inner()
}

const ROOT_RELS: &[u8] = br#"<?xml version="1.0" encoding="UTF-8"?>
<Relationships xmlns="http://schemas.openxmlformats.org/package/2006/relationships">
<Relationship Id="rId1" Type="http://schemas.openxmlformats.org/officeDocument/2006/relationships/officeDocument" Target="word/document.xml"/>
</Relationships>"#;

#[test]
fn resolve_joins_relative_targets() {
    assert_eq!(resolve("ppt/slides/slide1.xml", "../media/image1.png").unwrap(), "ppt/media/image1.png");
    assert_eq!(resolve("word/document.xml", "styles.xml").unwrap(), "word/styles.xml");
    assert_eq!(resolve("", "word/document.xml").unwrap(), "word/document.xml");
}

#[test]
fn resolve_drops_dot_and_empty_segments() {
    assert_eq!(resolve("a/b/c.xml", "./x//y/./z.xml").unwrap(), "a/b/x/y/z.xml");
}

#[test]
fn resolve_treats_leading_slash_as_root() {
    assert_eq!(resolve("ppt/slides/slide1.xml", "/ppt/media/a.png").unwrap(), "ppt/media/a.png");
}

#[test]
fn resolve_decodes_percent_escapes() {
    assert_eq!(resolve("word/document.xml", "media/a%20b.png").unwrap(), "word/media/a b.png");
    assert_eq!(resolve("word/document.xml", "%E4%B8%AD.png").unwrap(), "word/中.png");
}

#[test]
fn resolve_rejects_escape_from_root() {
    assert!(matches!(
        resolve("word/document.xml", "../../secret.xml"),
        Err(Error::Invalid("Relationship escapes package root"))
    ));
}

#[test]
fn resolve_rejects_forbidden_characters() {
    assert!(matches!(
        resolve("word/document.xml", "http://example.com/a"),
        Err(Error::Invalid("Invalid internal package relationship"))
    ));
    assert!(matches!(
        resolve("word/document.xml", "//host/a"),
        Err(Error::Invalid("Invalid internal package relationship"))
    ));
    assert!(matches!(
        resolve("word/document.xml", "a%3Ab"),
        Err(Error::Invalid("Invalid escaped relationship"))
    ));
}

#[test]
fn resolve_rejects_bad_escapes_and_encodings() {
    assert!(matches!(resolve("a.xml", "a%2"), Err(Error::Invalid("Invalid escaped path"))));
    assert!(matches!(resolve("a.xml", "a%zz"), Err(Error::Invalid("Invalid escaped path"))));
    assert!(matches!(
        resolve("a.xml", "a%FF.xml"),
        Err(Error::Invalid("Invalid relationship encoding"))
    ));
}

#[test]
fn resolve_rejects_empty_target() {
    assert!(matches!(resolve("a.xml", "."), Err(Error::Invalid("Empty package target"))));
    assert!(matches!(resolve("word/a.xml", ".."), Err(Error::Invalid("Empty package target"))));
}

#[test]
fn relation_part_names_rels_file() {
    assert_eq!(relation_part("word/document.xml"), "word/_rels/document.xml.rels");
    assert_eq!(relation_part("presentation.xml"), "_rels/presentation.xml.rels");
    assert_eq!(relation_part(""), "_rels/.rels");
}

#[test]
fn ascii_case_insensitive_match() {
    assert!(eq_ignore_ascii_case("EXTERNAL", "External"));
    assert!(!eq_ignore_ascii_case("Externals", "External"));
}

#[test]
fn document_kinds() {
    assert_eq!(document_kind("document").unwrap(), Kind::DOCX);
    assert_eq!(document_kind("presentation").unwrap(), Kind::PPTX);
    assert_eq!(document_kind("workbook").unwrap(), Kind::XLSX);
    assert!(matches!(
        document_kind("drawing"),
        Err(Error::Invalid("Only DOCX, PPTX and XLSX are supported"))
    ));
}

#[test]
fn expanded_total_limits() {
    assert_eq!(add_expanded(1, 2).unwrap(), 3);
    assert_eq!(add_expanded(0, MAX_EXPANDED).unwrap(), MAX_EXPANDED);
    assert!(matches!(
        add_expanded(1, MAX_EXPANDED),
        Err(Error::Limit("Expanded package exceeds 128 MiB"))
    ));
    assert!(matches!(
        add_expanded(1, u64::MAX),
        Err(Error::Limit("Expanded package is too large"))
    ));
}

#[test]
fn relationship_targets_skip_external_and_keep_last() {
    let root = parse(
        br#"<Relationships xmlns="http://schemas.openxmlformats.org/package/2006/relationships">
<Relationship Id="a" Target="media/one.png"/>
<Relationship Id="b" Target="http://x" TargetMode="EXTERNAL"/>
<Relationship Id="a" Target="media/two.png"/>
</Relationships>"#,
    )
    .unwrap();
    let map = relationship_targets("word/document.xml", &root).unwrap();
    assert_eq!(map.len(), 1);
    assert_eq!(map[0].0, "a");
    assert_eq!(map[0].1, "word/media/two.png");
}

#[test]
fn relationship_targets_report_bad_target() {
    let root = parse(br#"<Relationships><Relationship Id="a" Target="../../x"/></Relationships>"#).unwrap();
    assert!(matches!(
        relationship_targets("word/document.xml", &root),
        Err(Error::Invalid("Relationship escapes package root"))
    ));
}

#[test]
fn related_target_finds_type_suffix() {
    let root = parse(ROOT_RELS).unwrap();
    assert_eq!(related_target("", &root, "officeDocument").unwrap().as_deref(), Some("word/document.xml"));
    assert_eq!(related_target("", &root, "Document").unwrap(), None);
}

#[test]
fn package_reads_parts() {
    let bytes = zip_of(&[("a.txt", b"hello"), ("b/c.xml", b"<x/>")]);
    assert_eq!(entry_count(&bytes), Ok(2));
    let mut package = Package::new(bytes).unwrap();
    assert!(package.has("a.txt"));
    assert!(!package.has("missing"));
    assert_eq!(package.read("a.txt", 16).unwrap(), b"hello".to_vec());
    assert_eq!(package.xml("b/c.xml").unwrap().name, "x");
    assert!(matches!(package.read("missing", 16), Err(Error::MissingPart(name)) if name == "missing"));
    assert!(package.optional_xml("missing").unwrap().is_none());
}

#[test]
fn package_read_limit() {
    let bytes = zip_of(&[("a.txt", b"hello")]);
    let mut package = Package::new(bytes).unwrap();
    assert!(matches!(package.read("a.txt", 4), Err(Error::Limit("Package part is too large"))));
    assert_eq!(package.read("a.txt", 5).unwrap(), b"hello".to_vec());
}

#[test]
fn package_rejects_duplicate_entries() {
    let mut bytes = zip_of(&[("a.txt", b"1"), ("b.txt", b"2")]);
    // Rename the second entry to the first name in both headers.
    let name = b"b.txt";
    let mut i = 0;
    while i + name.len() <= bytes.len() {
        if &bytes[i..i + name.len()] == name {
            bytes[i] = b'a';
        }
        i += 1;
    }
    assert_eq!(entry_count(&bytes), Ok(2));
    assert!(matches!(Package::new(bytes), Err(Error::Invalid("Duplicate package entry"))));
}

#[test]
fn package_rejects_missing_end_record() {
    assert_eq!(entry_count(b"not a zip file at all, just text"), Err(DirectoryFault::MissingEndRecord));
    assert!(matches!(Package::new(b"short".to_vec()), Err(Error::Zip(_))));
}

#[test]
fn package_rejects_large_input() {
    let bytes = vec![0u8; 64 * 1024 * 1024 + 1];
    assert!(matches!(Package::new(bytes), Err(Error::Limit("Input exceeds 64 MiB"))));
}

#[test]
fn package_relationships_and_detection() {
    let document = br#"<w:document xmlns:w="http://schemas.openxmlformats.org/wordprocessingml/2006/main"><w:body/></w:document>"#;
    let bytes = zip_of(&[("_rels/.rels", ROOT_RELS), ("word/document.xml", document)]);
    let mut package = Package::new(bytes.clone()).unwrap();
    let rels = package.relationships("").unwrap();
    assert_eq!(rels.len(), 1);
    assert_eq!(rels[0].1, "word/document.xml");
    assert!(package.relationships("word/document.xml").unwrap().is_empty());
    let opened = parse_reader(bytes).unwrap();
    assert_eq!(opened.kind, Kind::DOCX);
    assert_eq!(opened.part, "word/document.xml");
    assert_eq!(opened.root.name, "document");
}

#[test]
fn parse_reader_requires_office_document() {
    let bytes = zip_of(&[("a.txt", b"x")]);
    assert!(matches!(
        parse_reader(bytes),
        Err(Error::Invalid("Only DOCX, PPTX and XLSX packages are supported"))
    ));
}

#[test]
fn parse_reader_refuses_unknown_root() {
    let bytes = zip_of(&[("_rels/.rels", ROOT_RELS), ("word/document.xml", b"<sheet/>")]);
    assert!(matches!(
        parse_reader(bytes),
        Err(Error::Invalid("Only DOCX, PPTX and XLSX are supported"))
    ));
}

#[test]
fn parse_reader_needs_office_document_relationship() {
    let rels = br#"<Relationships><Relationship Id="r1" Type="http://x/styles" Target="word/document.xml"/><Relationship Id="r2" Type="http://x/officeDocument" Target="http://example.com/a" TargetMode="EXTERNAL"/></Relationships>"#;
    let bytes = zip_of(&[("_rels/.rels", rels), ("word/document.xml", b"<document/>")]);
    assert!(matches!(
        parse_reader(bytes),
        Err(Error::Invalid("Only DOCX, PPTX and XLSX packages are supported"))
    ));
}

#[test]
fn xml_refuses_part_over_four_mib() {
    let big = vec![b' '; 4 * 1024 * 1024 + 1];
    let bytes = zip_of(&[("big.xml", &big)]);
    let mut package = Package::new(bytes).unwrap();
    assert!(matches!(package.xml("big.xml"), Err(Error::Limit("Package part is too large"))));
}

#[test]
fn read_budget_is_spent_across_reads() {
    let part = vec![b'a'; 1024 * 1024];
    let bytes = zip_of(&[("p.bin", &part)]);
    let mut package = Package::new(bytes).unwrap();
    for _ in 0..128 {
        assert_eq!(package.read("p.bin", 2 * 1024 * 1024).unwrap().len(), 1024 * 1024);
    }
    assert!(matches!(
        package.read("p.bin", 2 * 1024 * 1024),
        Err(Error::Limit("Package read budget exceeded"))
    ));
    assert!(matches!(
        package.read("p.bin", 2 * 1024 * 1024),
        Err(Error::Limit("Package read budget exceeded"))
    ));
}

#[test]
fn package_refuses_declared_total_over_limit() {
    let mut bytes = zip_of(&[("a.bin", b"x")]);
    let declared: u32 = 129 * 1024 * 1024;
    // Raise the declared uncompressed size in the central directory record.
    let central = bytes.windows(4).position(|w| w == [0x50, 0x4b, 0x01, 0x02]).unwrap();
    bytes[central + 24..central + 28].copy_from_slice(&declared.to_le_bytes());
    assert!(matches!(Package::new(bytes), Err(Error::Limit(_))));
}
