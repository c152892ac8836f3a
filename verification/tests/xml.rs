//! XML parts: decoding, limits, attribute maps and queries.
use jz_office_core::error::Error;
use jz_office_core::xml::{color, decode_text, parse};

#[test]
fn parses_elements_text_and_attributes() {
    let node = parse(br#"<a x="1"><b>hi</b>there<b y="2"/><c/></a>"#).unwrap();
    assert_eq!(node.name, "a");
    assert_eq!(node.attr("x"), "1");
    assert_eq!(node.attr("missing"), "");
    assert_eq!(node.text, "there");
    assert_eq!(node.children.len(), 3);
    assert_eq!(node.child("b").unwrap().text, "hi");
    assert_eq!(node.named("b").len(), 2);
    assert_eq!(node.descendant("c").unwrap().name, "c");
    assert!(node.child("d").is_none());
}

#[test]
fn relationship_attributes_get_r_prefix() {
    let node = parse(
        br#"<a xmlns:r="http://schemas.openxmlformats.org/officeDocument/2006/relationships" r:id="rId5" id="plain"/>"#,
    )
    .unwrap();
    assert_eq!(node.attr("r:id"), "rId5");
    assert_eq!(node.attr("id"), "plain");
}

#[test]
fn utf16_parts_are_decoded() {
    let text = "<a>é</a>";
    let mut le = vec![0xff, 0xfe];
    for unit in text.encode_utf16() {
        le.extend_from_slice(&unit.to_le_bytes());
    }
    assert_eq!(parse(&le).unwrap().text, "é");
    let mut be = vec![0xfe, 0xff];
    for unit in text.encode_utf16() {
        be.extend_from_slice(&unit.to_be_bytes());
    }
    assert_eq!(decode_text(&be).unwrap(), text);
}

#[test]
fn encoding_errors_are_reported() {
    assert!(matches!(parse(&[0xff, 0xfe, 0x3c]), Err(Error::Invalid("Truncated UTF-16 XML"))));
    assert!(matches!(parse(&[0xff, 0xfe, 0x00, 0xd8]), Err(Error::Invalid("Invalid UTF-16 XML"))));
    assert!(matches!(parse(&[0x3c, 0xff, 0x3e]), Err(Error::Invalid("Invalid UTF-8 XML"))));
}

#[test]
fn dtd_is_refused() {
    assert!(matches!(parse(b"<!DOCTYPE a [<!ENTITY e \"x\">]><a>&e;</a>"), Err(Error::Xml(_))));
    assert!(matches!(parse(b"<a>"), Err(Error::Xml(_))));
}

#[test]
fn nesting_is_limited_to_64_levels() {
    let mut deep = String::new();
    for _ in 0..64 {
        deep.push_str("<a>");
    }
    for _ in 0..64 {
        deep.push_str("</a>");
    }
    assert!(parse(deep.as_bytes()).is_ok());
    let deeper = format!("<a>{deep}</a>");
    assert!(matches!(parse(deeper.as_bytes()), Err(Error::Limit("XML nesting exceeds 64 levels"))));
}

#[test]
fn node_limit_is_enforced() {
    let mut many = String::from("<a>");
    for _ in 0..60000 {
        many.push_str("<b/>");
    }
    many.push_str("</a>");
    assert!(matches!(parse(many.as_bytes()), Err(Error::Xml(_))));
}

#[test]
fn colors_are_six_hex_digits() {
    assert_eq!(color("FF0000", 1), 0xffff0000);
    assert_eq!(color("00ff7f", 1), 0xff00ff7f);
    assert_eq!(color("+12345", 1), 0xff012345);
    assert_eq!(color("12345", 1), 1);
    assert_eq!(color("GG0000", 7), 7);
}
