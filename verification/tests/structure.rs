//! DOCX and PPTX structure rules and the warning list.
use jz_office_core::docx::flow::{block, inline_item, Block, Inline};
use jz_office_core::docx::inspect::inspect_message;
use jz_office_core::docx::{
    alternate, claim_cells, columns, document_body, enabled, grid_count, heading, page_size, skipped,
};
use jz_office_core::error::Error;
use jz_office_core::model::warn;
use jz_office_core::pptx::numbering::ListCounters;
use jz_office_core::pptx::paragraphs::{alignment, bullet, run_item, run_text, underline};
use jz_office_core::pptx::unsupported::warn as warn_unsupported;
use jz_office_core::pptx::{
    axis_labels, flipped, paragraph_level, reversed, shown_layers, slide_list, slide_part,
};
use jz_office_core::xml::parse;

#[test]
fn heading_levels() {
    assert_eq!(heading("Heading 1"), Some(1));
    assert_eq!(heading("heading9"), Some(9));
    assert_eq!(heading("HEADING +3"), Some(3));
    assert_eq!(heading("Heading 10"), None);
    assert_eq!(heading("Heading 0"), None);
    assert_eq!(heading("Title"), None);
    assert_eq!(heading(&"Heading 1".repeat(40)), None);
}

#[test]
fn switches() {
    assert!(enabled(""));
    assert!(enabled("1"));
    assert!(!enabled("FALSE"));
    assert!(!enabled("Off"));
    assert!(!enabled("none"));
}

#[test]
fn skipped_elements() {
    assert!(skipped("pPr"));
    assert!(skipped("altChunk"));
    assert!(!skipped("p"));
}

#[test]
fn alternate_prefers_choice() {
    let node = parse(b"<AlternateContent><Fallback/><Choice/></AlternateContent>").unwrap();
    assert_eq!(alternate(&node).unwrap().name, "Choice");
    let only = parse(b"<AlternateContent><Fallback/></AlternateContent>").unwrap();
    assert_eq!(alternate(&only).unwrap().name, "Fallback");
}

#[test]
fn grid_counts_and_columns() {
    let props = parse(br#"<trPr><gridBefore val="2"/><gridSpan val="0"/><gridAfter val="x"/></trPr>"#).unwrap();
    assert_eq!(grid_count(Some(&props), "gridBefore", 0).unwrap(), 2);
    assert_eq!(grid_count(Some(&props), "gridSpan", 1).unwrap(), 1);
    assert_eq!(grid_count(None, "gridSpan", 1).unwrap(), 1);
    assert!(matches!(grid_count(Some(&props), "gridAfter", 0), Err(Error::Invalid("Invalid DOCX table grid count"))));
    let wide = parse(br#"<tcPr><gridSpan val="33"/></tcPr>"#).unwrap();
    assert!(matches!(grid_count(Some(&wide), "gridSpan", 1), Err(Error::Limit("DOCX table exceeds 32 columns"))));
    assert!(columns(32).is_ok());
}

#[test]
fn table_cells_are_limited() {
    let mut cells = 4990;
    assert!(claim_cells(&mut cells, 10).is_ok());
    assert_eq!(cells, 5000);
    assert!(matches!(claim_cells(&mut cells, 1), Err(Error::Limit("DOCX exceeds 5000 table cells"))));
    assert_eq!(cells, 5000);
}

#[test]
fn warnings_are_recorded_once_up_to_100() {
    let mut warnings = Vec::new();
    warn(&mut warnings, "a");
    warn(&mut warnings, "a");
    assert_eq!(warnings, vec!["a".to_owned()]);
    for i in 0..150 {
        warn(&mut warnings, &format!("w{i}"));
    }
    assert_eq!(warnings.len(), 100);
    assert_eq!(warnings[99], "w98");
}

#[test]
fn unsupported_slide_content_warns_in_order() {
    let node = parse(b"<sld><timing/><a><chart/><effectLst/><effectLst><glow/></effectLst></a><chart/></sld>").unwrap();
    let mut warnings = Vec::new();
    warn_unsupported(&node, &mut warnings);
    assert_eq!(
        warnings,
        vec![
            "PPTX animations and timing are not supported.".to_owned(),
            "PPTX charts are omitted.".to_owned(),
            "PPTX shape effects and 3D styling are not supported.".to_owned(),
        ]
    );
}

#[test]
fn group_flips_and_levels() {
    let group = parse(br#"<grpSp><grpSpPr><xfrm flipV="1"/></grpSpPr></grpSp>"#).unwrap();
    assert!(flipped(&group));
    let plain = parse(br#"<grpSp><grpSpPr><xfrm flipH="off"/></grpSpPr></grpSp>"#).unwrap();
    assert!(!flipped(&plain));
    assert_eq!(paragraph_level(&parse(br#"<pPr lvl="3"/>"#).unwrap()), 3);
    assert_eq!(paragraph_level(&parse(br#"<pPr lvl="12"/>"#).unwrap()), 8);
    assert_eq!(paragraph_level(&parse(br#"<pPr lvl="x"/>"#).unwrap()), 0);
}

#[test]
fn chart_axes() {
    let axis = parse(br#"<valAx><delete val="0"/><tickLblPos val="nextTo"/><scaling><orientation val="maxMin"/></scaling></valAx>"#).unwrap();
    assert!(axis_labels(&axis));
    assert!(reversed(&axis));
    let hidden = parse(br#"<valAx><tickLblPos val="none"/></valAx>"#).unwrap();
    assert!(!axis_labels(&hidden));
    assert!(!reversed(&hidden));
}

#[test]
fn docx_element_warnings() {
    let node = |xml: &str| parse(xml.as_bytes()).unwrap();
    let merged = Some("Merged or irregular table cells use an unmerged rectangular approximation.");
    assert_eq!(inspect_message(&node("<vMerge/>"), false), merged);
    assert_eq!(inspect_message(&node("<gridSpan val=\"2\"/>"), true), merged);
    assert_eq!(inspect_message(&node("<gridSpan val=\"1\"/>"), false), None);
    assert_eq!(
        inspect_message(&node("<cols num=\"2\"/>"), true),
        Some("Multiple columns are rendered in a single continuous flow.")
    );
    assert_eq!(inspect_message(&node("<cols num=\"1\"/>"), false), None);
    assert_eq!(inspect_message(&node("<color val=\"FF0000\"/>"), false), None);
    assert_eq!(
        inspect_message(&node("<color themeColor=\"accent1\"/>"), false),
        Some("Theme colors use saved colors or inherited fallbacks.")
    );
    assert_eq!(
        inspect_message(&node("<jc val=\"distribute\"/>"), false),
        Some("Justified paragraphs are left aligned.")
    );
    assert_eq!(inspect_message(&node("<jc val=\"center\"/>"), false), None);
    assert_eq!(
        inspect_message(&node("<ind firstLine=\"720\"/>"), false),
        Some("First-line, hanging and right indents are not reproduced exactly.")
    );
    assert_eq!(inspect_message(&node("<ind left=\"720\"/>"), false), None);
    assert_eq!(
        inspect_message(&node("<spacing line=\"240\"/>"), false),
        Some("Line-based spacing uses the viewer's default line spacing.")
    );
    assert_eq!(inspect_message(&node("<pageBreakBefore val=\"off\"/>"), false), None);
    assert_eq!(
        inspect_message(&node("<pageBreakBefore/>"), false),
        Some("Paragraph page breaks are ignored in continuous flow.")
    );
    assert_eq!(
        inspect_message(&node("<headerReference/>"), false),
        Some("Headers and footers are omitted.")
    );
    assert_eq!(inspect_message(&node("<p/>"), true), None);
}

#[test]
fn list_numbering_counts_per_level() {
    let bullet = |xml: &str| parse(xml.as_bytes()).unwrap();
    let mut counters = ListCounters::new();
    let arabic = bullet("<buAutoNum type=\"arabicPeriod\" startAt=\"3\"/>");
    assert_eq!(counters.number(0, &arabic).unwrap(), ("3. ".to_owned(), false));
    counters.finish(0);
    assert_eq!(counters.number(0, &arabic).unwrap(), ("4. ".to_owned(), false));
    counters.finish(0);
    let roman = bullet("<buAutoNum type=\"romanLcParenR\"/>");
    assert_eq!(counters.number(1, &roman).unwrap(), ("i) ".to_owned(), false));
    counters.finish(1);
    assert_eq!(counters.number(1, &roman).unwrap(), ("ii) ".to_owned(), false));
    counters.finish(1);
    // A paragraph at the outer level restarts the inner one.
    assert_eq!(counters.number(0, &arabic).unwrap(), ("5. ".to_owned(), false));
    counters.finish(0);
    assert_eq!(counters.number(1, &roman).unwrap(), ("i) ".to_owned(), false));
    counters.finish(1);

    let unknown = bullet("<buAutoNum type=\"hebrew2Minus\" startAt=\"0\"/>");
    assert_eq!(counters.number(2, &unknown).unwrap(), ("1. ".to_owned(), true));
    let large = bullet("<buAutoNum type=\"alphaUcPeriod\" startAt=\"+99999\"/>");
    assert_eq!(counters.number(3, &large).unwrap().0, "G".repeat(1261) + ". ");
    let huge = bullet("<buAutoNum type=\"arabicPlain\" startAt=\"4294967296\"/>");
    assert_eq!(counters.number(4, &huge).unwrap(), ("1 ".to_owned(), false));
    assert!(matches!(counters.number(9, &arabic), Err(Error::Invalid("Invalid PPTX list level"))));
}

#[test]
fn presentation_slide_list() {
    let ns = "xmlns:r=\"http://schemas.openxmlformats.org/officeDocument/2006/relationships\"";
    let root = parse(
        format!("<presentation {ns}><sldIdLst><sldId r:id=\"rId2\"/><x/><sldId r:id=\"rId9\"/></sldIdLst></presentation>")
            .as_bytes(),
    )
    .unwrap();
    let ids = slide_list(&root).unwrap();
    assert_eq!(ids.len(), 2);
    let rels = vec![("rId2".to_owned(), "ppt/slides/slide1.xml".to_owned())];
    assert_eq!(slide_part(&rels, ids[0]).unwrap(), "ppt/slides/slide1.xml");
    assert!(matches!(
        slide_part(&rels, ids[1]),
        Err(Error::Invalid("Missing PPTX slide relationship"))
    ));
    assert!(matches!(
        slide_list(&parse(b"<presentation/>").unwrap()),
        Err(Error::Invalid("PPTX has no slide list"))
    ));
    assert!(matches!(
        slide_list(&parse(b"<presentation><sldIdLst/></presentation>").unwrap()),
        Err(Error::Invalid("PPTX has no slides"))
    ));
    let many = format!("<presentation><sldIdLst>{}</sldIdLst></presentation>", "<sldId/>".repeat(101));
    assert!(matches!(
        slide_list(&parse(many.as_bytes()).unwrap()),
        Err(Error::Limit("PPTX exceeds 100 slides"))
    ));
}

#[test]
fn master_and_layout_layers() {
    let slide = parse(b"<sld/>").unwrap();
    let hiding = parse(b"<sld showMasterSp=\"0\"/>").unwrap();
    let layout = parse(b"<sldLayout/>").unwrap();
    let layout_hiding = parse(b"<sldLayout showMasterSp=\"false\"/>").unwrap();
    assert_eq!(shown_layers(&slide, Some(&layout)), (true, true));
    assert_eq!(shown_layers(&slide, None), (true, true));
    assert_eq!(shown_layers(&slide, Some(&layout_hiding)), (false, true));
    assert_eq!(shown_layers(&hiding, Some(&layout)), (false, false));
}

#[test]
fn docx_body_and_page_size() {
    let root = parse(b"<document><body><p/><sectPr><pgSz w=\"12240\"/></sectPr></body></document>").unwrap();
    let body = document_body(&root).unwrap();
    assert_eq!(page_size(body).unwrap().attr("w"), "12240");
    let nested = parse(b"<body><p><pPr><sectPr><pgSz w=\"1\"/></sectPr></pPr></p></body>").unwrap();
    assert_eq!(page_size(&nested).unwrap().attr("w"), "1");
    let bare = parse(b"<body><sectPr/></body>").unwrap();
    assert!(page_size(&bare).is_none());
    assert!(matches!(
        document_body(&parse(b"<workbook/>").unwrap()),
        Err(Error::Invalid("Invalid DOCX document root"))
    ));
    assert!(matches!(
        document_body(&parse(b"<document/>").unwrap()),
        Err(Error::Invalid("Missing DOCX body"))
    ));
}

#[test]
fn docx_flow_elements() {
    let node = |xml: &str| parse(xml.as_bytes()).unwrap();
    assert!(matches!(block(&node("<p/>")), Block::Paragraph));
    assert!(matches!(block(&node("<tbl/>")), Block::Table));
    assert!(matches!(block(&node("<sdt><sdtContent/></sdt>")), Block::Inside(Some(c)) if c.name == "sdtContent"));
    assert!(matches!(block(&node("<sdt/>")), Block::Inside(None)));
    assert!(matches!(
        block(&node("<AlternateContent><Fallback/><Choice/></AlternateContent>")),
        Block::Inside(Some(c)) if c.name == "Choice"
    ));
    assert!(matches!(block(&node("<sectPr/>")), Block::Skip));
    assert!(matches!(block(&node("<customXml/>")), Block::Descend));

    assert!(matches!(inline_item(&node("<r/>")), Inline::Run));
    assert!(matches!(inline_item(&node("<t>x</t>")), Inline::Text));
    assert!(matches!(inline_item(&node("<ptab/>")), Inline::Tab));
    assert!(matches!(inline_item(&node("<br/>")), Inline::Break(false)));
    assert!(matches!(inline_item(&node("<br type=\"page\"/>")), Inline::Break(true)));
    assert!(matches!(inline_item(&node("<cr type=\"column\"/>")), Inline::Break(true)));
    assert!(matches!(inline_item(&node("<br type=\"textWrapping\"/>")), Inline::Break(false)));
    assert!(matches!(inline_item(&node("<noBreakHyphen/>")), Inline::NonBreakingHyphen));
    assert!(matches!(inline_item(&node("<softHyphen/>")), Inline::SoftHyphen));
    assert!(matches!(inline_item(&node("<drawing/>")), Inline::Drawing));
    assert!(matches!(inline_item(&node("<sym/>")), Inline::Symbol));
    assert!(matches!(inline_item(&node("<instrText/>")), Inline::Skip));
    assert!(matches!(inline_item(&node("<hyperlink/>")), Inline::Descend));
}

#[test]
fn slide_paragraph_bullets_and_runs() {
    let node = |xml: &str| parse(xml.as_bytes()).unwrap();
    let master = node("<lvl1pPr><buChar char=\"-\"/><buFont/></lvl1pPr>");
    let font = node("<fontRef><buAutoNum type=\"arabicPeriod\"/></fontRef>");
    let direct = node("<pPr><buNone/><buAutoNum type=\"alphaLcPeriod\"/></pPr>");
    let plain = node("<pPr algn=\"ctr\"/>");
    assert_eq!(bullet(&[&master]).unwrap().name, "buChar");
    assert_eq!(bullet(&[&master, &font]).unwrap().name, "buChar");
    assert_eq!(bullet(&[&master, &direct]).unwrap().attr("type"), "alphaLcPeriod");
    assert_eq!(bullet(&[&direct, &plain]).unwrap().name, "buAutoNum");
    assert!(bullet(&[&plain, &font]).is_none());
    assert!(bullet(&[]).is_none());

    assert_eq!(run_text(&node("<r><rPr/><t>Hello</t><t>, world</t></r>")), "Hello, world");
    assert_eq!(run_text(&node("<fld type=\"slidenum\"><t>3</t></fld>")), "3");
    assert_eq!(run_text(&node("<br><t>ignored</t></br>")), "\n");
    assert_eq!(run_text(&node("<r/>")), "");
    assert!(run_item(&node("<fld/>")) && run_item(&node("<br/>")) && run_item(&node("<r/>")));
    assert!(!run_item(&node("<pPr/>")) && !run_item(&node("<endParaRPr/>")));
}

#[test]
fn slide_underline_and_alignment() {
    assert_eq!(underline("", true), (true, false));
    assert_eq!(underline("", false), (false, false));
    assert_eq!(underline("none", true), (false, false));
    assert_eq!(underline("sng", false), (true, false));
    assert_eq!(underline("dbl", false), (true, true));
    assert_eq!(alignment("", 2), (2, false));
    assert_eq!(alignment("ctr", 0), (1, false));
    assert_eq!(alignment("r", 0), (2, false));
    assert_eq!(alignment("l", 2), (0, false));
    assert_eq!(alignment("just", 2), (0, true));
}
