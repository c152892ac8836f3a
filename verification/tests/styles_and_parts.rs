//! DOCX style tables, PPTX part cache and geometry words, XLSX workbook lists.
use jz_office_core::docx::flow::{image_source, is_container, ImageSource};
use jz_office_core::docx::{default_styles_part, outline_level, StyleTable};
use jz_office_core::error::Error;
use jz_office_core::package::Package;
use jz_office_core::pptx::parts::{graph_size, Cache, Part};
use jz_office_core::pptx::shapes::{picture_effects, picture_masked, picture_part};
use jz_office_core::pptx::{has_zero_corner_radius, words};
use jz_office_core::xlsx::{related_xml, shared_strings, sheet_target, Budget};
use jz_office_core::xml::parse;
use std::io::Write;
use std::rc::Rc;

fn zip_of(entries: &[(&str, &[u8])]) -> Vec<u8> {
    let mut writer = zip::ZipWriter::new(std::io::Cursor::new(Vec::new()));
    let options = zip::write::SimpleFileOptions::default()
        .compression_method(zip::CompressionMethod::Stored);
    for (name, data) in entries {
        writer.start_file(*name, options).unwrap();
        writer.write_all(data).unwrap();
    }
    writer.finish().unwrap().into_inner()
}

fn table(xml: &str) -> StyleTable {
    StyleTable::load(parse(xml.as_bytes()).unwrap()).unwrap()
}

#[test]
fn style_table_defaults_and_chain() {
    let styles = table(
        r#"<styles>
<style styleId="Normal" type="paragraph" default="1"/>
<style styleId="Heading1" type="paragraph"><basedOn val="Normal"/><name val="heading 1"/></style>
<style styleId="Emph" type="character" default="true"/>
<style styleId="Loop"><basedOn val="Loop"/></style>
<style styleId="Orphan"><basedOn val="Missing"/></style>
</styles>"#,
    );
    assert_eq!(styles.default_paragraph, "Normal");
    assert_eq!(styles.default_character, "Emph");
    let mut warnings = Vec::new();
    let chain = styles.chain("Heading1", &mut warnings);
    assert_eq!(chain.len(), 2);
    assert_eq!(chain[0].attr("styleId"), "Heading1");
    assert!(warnings.is_empty());
    assert_eq!(styles.chain("Loop", &mut warnings).len(), 1);
    assert_eq!(warnings, vec!["Cyclic or excessive style inheritance was stopped.".to_owned()]);
    assert_eq!(styles.chain("Orphan", &mut warnings).len(), 1);
    assert_eq!(warnings.len(), 2);
    assert!(styles.chain("", &mut warnings).is_empty());
}

#[test]
fn style_table_limits() {
    let mut many = String::from("<styles>");
    for i in 0..1025 {
        many.push_str(&format!("<style styleId=\"s{i}\"/>"));
    }
    many.push_str("</styles>");
    assert!(matches!(
        StyleTable::load(parse(many.as_bytes()).unwrap()),
        Err(Error::Limit("DOCX exceeds 1024 styles"))
    ));
    let long = format!("<styles><style styleId=\"{}\"/></styles>", "x".repeat(257));
    assert!(matches!(
        StyleTable::load(parse(long.as_bytes()).unwrap()),
        Err(Error::Limit("DOCX style identifier exceeds 256 bytes"))
    ));
}

#[test]
fn outline_levels() {
    let styles = table(
        r#"<styles><style styleId="Title"><name val="Heading 2"/></style><style styleId="Body"><pPr><outlineLvl val="3"/></pPr></style></styles>"#,
    );
    let mut warnings = Vec::new();
    let title = styles.chain("Title", &mut warnings);
    assert_eq!(outline_level(None, "Title", &title), Some(2));
    let body = styles.chain("Body", &mut warnings);
    assert_eq!(outline_level(None, "Body", &body), Some(4));
    let own = parse(br#"<pPr><outlineLvl val="9"/></pPr>"#).unwrap();
    assert_eq!(outline_level(Some(&own), "Heading1", &body), None);
    assert_eq!(outline_level(None, "Heading3", &Vec::new()), Some(3));
}

#[test]
fn default_style_parts() {
    assert_eq!(default_styles_part("word/document.xml"), "word/styles.xml");
    assert_eq!(default_styles_part("document.xml"), "styles.xml");
}

#[test]
fn geometry_words_and_zero_radius() {
    let w = words(" val\u{3000}0  x ");
    assert_eq!(w.len(), 3);
    assert_eq!(w[0].iter().collect::<String>(), "val");
    let zero = parse(br#"<prstGeom><avLst><gd name="adj" fmla="val -00"/></avLst></prstGeom>"#).unwrap();
    assert!(has_zero_corner_radius(&zero));
    let round = parse(br#"<prstGeom><avLst><gd name="adj" fmla="val 16667"/></avLst></prstGeom>"#).unwrap();
    assert!(!has_zero_corner_radius(&round));
    let extra = parse(br#"<prstGeom><avLst><gd name="adj" fmla="val 0 0"/></avLst></prstGeom>"#).unwrap();
    assert!(!has_zero_corner_radius(&extra));
    assert!(!has_zero_corner_radius(&parse(b"<prstGeom/>").unwrap()));
}

#[test]
fn graph_size_counts_nodes() {
    let node = parse(b"<a><b><c/></b><d/></a>").unwrap();
    let (count, bytes) = graph_size(&node);
    assert_eq!(count, 4);
    assert!(bytes >= 4 * 256);
}

#[test]
fn cache_shares_parts_and_stays_bounded() {
    let rels = br#"<Relationships><Relationship Id="r1" Type="http://x/slideLayout" Target="../slideLayouts/layout1.xml"/></Relationships>"#;
    let bytes = zip_of(&[
        ("ppt/slides/slide1.xml", b"<sld/>"),
        ("ppt/slides/_rels/slide1.xml.rels", rels),
        ("ppt/slideLayouts/layout1.xml", b"<sldLayout><cSld/></sldLayout>"),
    ]);
    let mut package = Package::new(bytes).unwrap();
    let slide = Part::read(&mut package, "ppt/slides/slide1.xml").unwrap();
    assert_eq!(slide.rels.len(), 1);
    let mut cache = Cache::new();
    let layout = cache.related(&mut package, Some(&slide), "slideLayout").unwrap().unwrap();
    assert_eq!(layout.path, "ppt/slideLayouts/layout1.xml");
    let again = cache.related(&mut package, Some(&slide), "slideLayout").unwrap().unwrap();
    assert!(Rc::ptr_eq(&layout, &again));
    assert!(cache.related(&mut package, None, "slideLayout").unwrap().is_none());
    assert!(cache.related(&mut package, Some(&slide), "theme").unwrap().is_none());
    for i in 0..20 {
        let part = Rc::new(Part { path: format!("p{i}"), root: parse(b"<a/>").unwrap(), rels: Vec::new() });
        cache.keep(part, 1, 1);
    }
    assert!(cache.find("p19").is_some());
    assert!(cache.find("p3").is_none());
    assert!(cache.find("ppt/slideLayouts/layout1.xml").is_none());
}

#[test]
fn shared_strings_are_read() {
    let sst = parse(b"<sst><si><t>a</t></si><x/><si><r><t>b</t></r><r><t>c</t></r></si></sst>").unwrap();
    let mut budget = Budget::default();
    let strings = shared_strings(&sst, &mut budget).unwrap();
    assert_eq!(strings, vec!["a".to_owned(), "bc".to_owned()]);
    assert_eq!(budget.text, 3);
    assert!(matches!(
        shared_strings(&parse(b"<x/>").unwrap(), &mut budget),
        Err(Error::Invalid("Invalid shared strings part"))
    ));
}

#[test]
fn sheet_targets() {
    let rels = vec![("rId1".to_owned(), "xl/worksheets/sheet1.xml".to_owned())];
    let mut names = Vec::new();
    let mut budget = Budget::default();
    let mut warnings = Vec::new();
    let sheet = parse(br#"<sheet xmlns:r="http://schemas.openxmlformats.org/officeDocument/2006/relationships" name="One" r:id="rId1"/>"#).unwrap();
    assert_eq!(
        sheet_target(&sheet, &mut names, &rels, &mut budget, &mut warnings).unwrap().as_deref(),
        Some("xl/worksheets/sheet1.xml")
    );
    assert!(matches!(
        sheet_target(&sheet, &mut names, &rels, &mut budget, &mut warnings),
        Err(Error::Invalid("Missing or duplicate XLSX sheet name"))
    ));
    let hidden = parse(br#"<sheet name="Two" state="hidden"/>"#).unwrap();
    assert!(sheet_target(&hidden, &mut names, &rels, &mut budget, &mut warnings).unwrap().is_none());
    assert_eq!(warnings, vec!["Hidden worksheets are not displayed".to_owned()]);
    let odd = parse(br#"<sheet name="Three" state="odd"/>"#).unwrap();
    assert!(matches!(
        sheet_target(&odd, &mut names, &rels, &mut budget, &mut warnings),
        Err(Error::Invalid("Invalid worksheet visibility"))
    ));
    let lost = parse(br#"<sheet name="Four"/>"#).unwrap();
    assert!(matches!(
        sheet_target(&lost, &mut names, &rels, &mut budget, &mut warnings),
        Err(Error::Invalid("Missing worksheet relationship"))
    ));
}

#[test]
fn related_xml_reads_target() {
    let rels = br#"<Relationships><Relationship Id="r1" Type="http://x/styles" Target="styles.xml"/></Relationships>"#;
    let bytes = zip_of(&[
        ("xl/workbook.xml", b"<workbook/>"),
        ("xl/_rels/workbook.xml.rels", rels),
        ("xl/styles.xml", b"<styleSheet/>"),
    ]);
    let mut package = Package::new(bytes).unwrap();
    assert_eq!(related_xml(&mut package, "xl/workbook.xml", "styles").unwrap().unwrap().name, "styleSheet");
    assert!(related_xml(&mut package, "xl/workbook.xml", "theme").unwrap().is_none());
}

#[test]
fn shared_string_limits() {
    let many = format!("<sst>{}</sst>", "<si/>".repeat(50_001));
    let mut budget = Budget::default();
    assert!(matches!(
        shared_strings(&parse(many.as_bytes()).unwrap(), &mut budget),
        Err(Error::Limit("XLSX exceeds 50000 shared strings"))
    ));
    assert_eq!(budget.text, 0);
    let full = format!("<sst>{}</sst>", "<si/>".repeat(50_000));
    let mut budget = Budget::default();
    assert_eq!(shared_strings(&parse(full.as_bytes()).unwrap(), &mut budget).unwrap().len(), 50_000);

    let mut nearly = Budget { text: 8_388_607, ..Budget::default() };
    let two = parse(b"<sst><si><t>ab</t></si></sst>").unwrap();
    assert!(matches!(
        shared_strings(&two, &mut nearly),
        Err(Error::Limit("XLSX text exceeds 8 MiB"))
    ));
    let mut spent = Budget { text: 9_000_000, ..Budget::default() };
    assert!(shared_strings(&parse(b"<sst/>").unwrap(), &mut spent).unwrap().is_empty());
}

#[test]
fn workbook_sheet_list() {
    let book = parse(b"<workbook><sheets><sheet name=\"a\"/><x/><sheet name=\"b\"/></sheets></workbook>").unwrap();
    let list = jz_office_core::xlsx::sheet_list(&book).unwrap();
    assert_eq!(list.iter().map(|s| s.attr("name")).collect::<Vec<_>>(), vec!["a", "b"]);
    assert!(matches!(
        jz_office_core::xlsx::sheet_list(&parse(b"<workbook/>").unwrap()),
        Err(Error::Invalid("Missing XLSX sheets"))
    ));
    let many = format!("<workbook><sheets>{}</sheets></workbook>", "<sheet/>".repeat(33));
    assert!(matches!(
        jz_office_core::xlsx::sheet_list(&parse(many.as_bytes()).unwrap()),
        Err(Error::Limit("XLSX exceeds 32 sheets"))
    ));
    let full = format!("<workbook><sheets>{}</sheets></workbook>", "<sheet/>".repeat(32));
    assert_eq!(jz_office_core::xlsx::sheet_list(&parse(full.as_bytes()).unwrap()).unwrap().len(), 32);
}

#[test]
fn drawing_image_sources() {
    let package = Package::new(zip_of(&[("word/media/a.png", b"png")])).unwrap();
    let rels = vec![
        ("rId1".to_owned(), "word/media/a.png".to_owned()),
        ("rId2".to_owned(), "word/media/gone.png".to_owned()),
        ("".to_owned(), "word/media/a.png".to_owned()),
    ];
    let ns = "xmlns:r=\"http://schemas.openxmlformats.org/officeDocument/2006/relationships\"";
    let drawing = |blip: &str| parse(format!("<inline {ns}><graphic>{blip}</graphic></inline>").as_bytes()).unwrap();
    let found = drawing("<blip r:embed=\"rId1\"/>");
    assert!(matches!(image_source(&found, &rels, &package), ImageSource::Part(p) if p == "word/media/a.png"));
    let plain = drawing("<blip embed=\"rId1\"/>");
    assert!(matches!(image_source(&plain, &rels, &package), ImageSource::Part(_)));
    let missing = drawing("<blip r:embed=\"rId2\"/>");
    assert!(matches!(image_source(&missing, &rels, &package), ImageSource::MissingPart));
    let unknown = drawing("<blip r:embed=\"rId9\"/>");
    assert!(matches!(image_source(&unknown, &rels, &package), ImageSource::Unresolved));
    let empty = drawing("<blip/>");
    assert!(matches!(image_source(&empty, &rels, &package), ImageSource::Unresolved));
    let chart = drawing("<chart/>");
    assert!(matches!(image_source(&chart, &rels, &package), ImageSource::NotImage));
    assert!(is_container(&found));
    assert!(!is_container(&parse(b"<docPr/>").unwrap()));
}

#[test]
fn slide_pictures() {
    let package = Package::new(zip_of(&[("ppt/media/a.png", b"png")])).unwrap();
    let rels = vec![
        ("rId1".to_owned(), "ppt/media/a.png".to_owned()),
        ("rId2".to_owned(), "ppt/media/b.png".to_owned()),
    ];
    let ns = "xmlns:r=\"http://schemas.openxmlformats.org/officeDocument/2006/relationships\"";
    let pic = |inner: &str| parse(format!("<pic {ns}>{inner}</pic>").as_bytes()).unwrap();
    let shown = pic("<blipFill><blip r:embed=\"rId1\"/></blipFill><spPr><prstGeom prst=\"rect\"/></spPr>");
    assert_eq!(picture_part(&shown, &rels, &package).map(String::as_str), Some("ppt/media/a.png"));
    assert!(!picture_effects(&shown));
    assert!(!picture_masked(&shown));
    let gone = pic("<blipFill><blip r:embed=\"rId2\"><alphaModFix/></blip><tile/></blipFill><spPr><custGeom/></spPr>");
    assert!(picture_part(&gone, &rels, &package).is_none());
    assert!(picture_effects(&gone));
    assert!(picture_masked(&gone));
    let linked = pic("<blipFill><blip r:link=\"rId1\"/></blipFill><spPr><prstGeom prst=\"ellipse\"/></spPr>");
    assert!(picture_part(&linked, &rels, &package).is_none());
    assert!(picture_masked(&linked));
}

#[test]
fn style_table_order_rules() {
    let styles = table(
        r#"<styles>
<style styleId="A" type="paragraph" default="1"><name val="first"/></style>
<style styleId="A"><name val="second"/></style>
<style type="paragraph" default="1"/>
<style styleId="B" type="paragraph" default="0"/>
<other styleId="C"/>
<style styleId="D" type="table" default="1"/>
</styles>"#,
    );
    assert_eq!(styles.style_of("A").unwrap().child("name").unwrap().attr("val"), "second");
    assert!(styles.style_of("C").is_none());
    assert!(styles.style_of("").is_none());
    assert_eq!(styles.default_paragraph, "A");
    assert_eq!(styles.default_character, "");

    let mut late = String::from("<styles>");
    for i in 0..1024 {
        late.push_str(&format!("<style styleId=\"s{i}\"/>"));
    }
    late.push_str(&format!("<style styleId=\"{}\"/></styles>", "x".repeat(300)));
    assert!(matches!(
        StyleTable::load(parse(late.as_bytes()).unwrap()),
        Err(Error::Limit("DOCX exceeds 1024 styles"))
    ));
    let base = r#"<styles><style styleId="A"><basedOn val="BASE"/></style></styles>"#.replace("BASE", &"b".repeat(257));
    assert!(matches!(
        StyleTable::load(parse(base.as_bytes()).unwrap()),
        Err(Error::Limit("DOCX style identifier exceeds 256 bytes"))
    ));
}
