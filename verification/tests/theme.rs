//! Slide theme colours: defaults, mappings, accents, colour elements and fills.
use jz_office_core::pptx::colors::{fill, text_fill, ColorChoice, Fill, FillStyle, TextFill, Theme};
use jz_office_core::model::ElementType;
use jz_office_core::pptx::inheritance::{entry, is_hidden, paragraph_defaults, Entry};
use jz_office_core::pptx::parts::Part;
use jz_office_core::pptx::shapes::{
    frame, has_theme_effect, line_style, merged_cell, shape_kind, undrawn_line, Frame, LineStyle,
};
use jz_office_core::text::contains;
use jz_office_core::xml::{parse, Node};
use std::rc::Rc;

fn node(xml: &str) -> Node {
    parse(xml.as_bytes()).unwrap()
}

fn themed(xml: &str) -> Theme {
    let part = Part {
        path: "ppt/theme/theme1.xml".to_string(),
        root: node(xml),
        rels: Vec::new(),
    };
    Theme::with_defaults(Some(Rc::new(part)))
}

const SCHEME: &str = "<theme><themeElements><fmtScheme>\
    <fillStyleLst><solidFill><schemeClr val=\"phClr\"/></solidFill><noFill/><gradFill/></fillStyleLst>\
    <lnStyleLst><ln w=\"9525\"/><ln w=\"25400\"/></lnStyleLst>\
    <bgFillStyleLst><solidFill><srgbClr val=\"00FF00\"/></solidFill></bgFillStyleLst>\
    </fmtScheme></themeElements></theme>";

#[test]
fn theme_defaults() {
    let theme = Theme::with_defaults(None);
    assert_eq!(theme.resolve("dk1"), Some(0xff000000));
    assert_eq!(theme.resolve("tx1"), Some(0xff000000));
    assert_eq!(theme.resolve("bg1"), Some(0xffffffff));
    assert_eq!(theme.resolve("accent1"), None);
    assert_eq!(theme.text_color(), 0xff000000);
    assert!(theme.format_list("fillStyleLst").is_none());
}

#[test]
fn accents_cycle_through_six() {
    let mut theme = Theme::with_defaults(None);
    assert_eq!(theme.accent(0), 0xff4472c4);
    assert_eq!(theme.accent(6), 0xff4472c4);
    assert_eq!(theme.accent(5), 0xff70ad47);
    assert_eq!(theme.accent(11), theme.accent(5));
    theme.insert_color("accent2".to_string(), 0xff123456);
    assert_eq!(theme.accent(1), 0xff123456);
    assert_eq!(theme.accent(7), 0xff123456);
}

#[test]
fn colour_maps_layer_master_layout_slide() {
    let mut theme = Theme::with_defaults(None);
    theme.insert_color("dk2".to_string(), 0xff111111);
    theme.insert_color("lt2".to_string(), 0xff222222);
    let master = node("<sldMaster><clrMap tx1=\"lt1\" bg1=\"dk1\"/></sldMaster>");
    let layout = node("<sldLayout><clrMapOvr><overrideClrMapping tx1=\"dk2\"/></clrMapOvr></sldLayout>");
    let slide = node("<sld><clrMapOvr><overrideClrMapping bg1=\"lt2\"/></clrMapOvr></sld>");
    theme.set_mapping(&slide, Some(&layout), Some(&master));
    assert_eq!(theme.resolve("tx1"), Some(0xff111111));
    assert_eq!(theme.resolve("bg1"), Some(0xff222222));
    assert_eq!(theme.text_color(), 0xff111111);

    let mut kept = Theme::with_defaults(None);
    let keeps = node("<sld><clrMapOvr><masterClrMapping/></clrMapOvr></sld>");
    kept.set_mapping(&keeps, Some(&layout), Some(&master));
    assert_eq!(kept.resolve("tx1"), Some(0xffffffff));
}

#[test]
fn colour_elements() {
    let mut theme = Theme::with_defaults(None);
    theme.insert_color("accent1".to_string(), 0xff4472c4);
    let rgb = node("<solidFill><extLst/><srgbClr val=\"FF0000\"/><schemeClr val=\"accent1\"/></solidFill>");
    assert!(matches!(theme.color_choice(&rgb, 7), ColorChoice::Base(n, 0xffff0000, false) if n.name == "srgbClr"));
    let bad = node("<solidFill><srgbClr val=\"FF00\"/></solidFill>");
    assert!(matches!(theme.color_choice(&bad, 7), ColorChoice::Base(_, 7, false)));
    let system = node("<solidFill><sysClr val=\"windowText\" lastClr=\"000000\"/></solidFill>");
    assert!(matches!(theme.color_choice(&system, 7), ColorChoice::Base(_, 0xff000000, false)));
    let scheme = node("<solidFill><schemeClr val=\"accent1\"><lumMod val=\"75000\"/></schemeClr></solidFill>");
    assert!(matches!(theme.color_choice(&scheme, 7), ColorChoice::Base(n, 0xff4472c4, false) if n.children.len() == 1));
    let missing = node("<solidFill><schemeClr val=\"accent9\"/></solidFill>");
    assert!(matches!(theme.color_choice(&missing, 7), ColorChoice::Base(_, 7, true)));
    let placeholder = node("<solidFill><schemeClr val=\"phClr\"/></solidFill>");
    assert!(matches!(theme.color_choice(&placeholder, 7), ColorChoice::Base(_, 7, false)));
    let preset = node("<solidFill><prstClr val=\"red\"/></solidFill>");
    assert!(matches!(theme.color_choice(&preset, 7), ColorChoice::Unsupported));
    let none = node("<solidFill/>");
    assert!(matches!(theme.color_choice(&none, 7), ColorChoice::Missing));
}

#[test]
fn shape_fills() {
    let clear = node("<spPr><noFill/><solidFill/></spPr>");
    assert!(matches!(fill(&clear), Fill::Clear));
    let solid = node("<spPr><gradFill/><solidFill><srgbClr val=\"0000FF\"/></solidFill></spPr>");
    assert!(matches!(fill(&solid), Fill::Solid(n) if n.children.len() == 1));
    let gradient = node("<spPr><gradFill/></spPr>");
    assert!(matches!(fill(&gradient), Fill::Unsupported));
    let plain = node("<spPr><ln/></spPr>");
    assert!(matches!(fill(&plain), Fill::Inherited));
}

#[test]
fn theme_fill_references() {
    let theme = themed(SCHEME);
    assert!(theme.format_list("fillStyleLst").is_some());
    let reference = |idx: &str| node(&format!("<fillRef idx=\"{idx}\"/>"));
    assert!(matches!(theme.fill_style(&reference("0")), FillStyle::Clear));
    assert!(matches!(theme.fill_style(&reference("1000")), FillStyle::Clear));
    assert!(matches!(theme.fill_style(&reference("x")), FillStyle::Clear));
    assert!(matches!(theme.fill_style(&reference("1")), FillStyle::Solid(n) if n.name == "solidFill"));
    assert!(matches!(theme.fill_style(&reference("+2")), FillStyle::Empty));
    assert!(matches!(theme.fill_style(&reference("3")), FillStyle::Unsupported));
    assert!(matches!(theme.fill_style(&reference("4")), FillStyle::Unsupported));
    assert!(matches!(theme.fill_style(&reference("1001")), FillStyle::Solid(_)));
    assert!(matches!(theme.fill_style(&reference("1002")), FillStyle::Unsupported));
    let bare = Theme::with_defaults(None);
    assert!(matches!(bare.fill_style(&reference("1")), FillStyle::Unsupported));
}

#[test]
fn shape_kinds_follow_the_chain() {
    let placeholder = node("<sp><spPr><prstGeom prst=\"ellipse\"/></spPr></sp>");
    let plain = node("<sp><spPr/></sp>");
    let round = node("<sp><spPr><prstGeom prst=\"roundRect\"><avLst><gd name=\"adj\" fmla=\"val 0\"/></avLst></prstGeom></spPr></sp>");
    let rounded = node("<sp><spPr><prstGeom prst=\"roundRect\"/></spPr></sp>");
    let custom = node("<sp><spPr><prstGeom prst=\"ellipse\"/><custGeom/></spPr></sp>");
    let connector = node("<cxnSp><spPr/></cxnSp>");
    assert_eq!(shape_kind(&[]), Some(ElementType::RECT));
    assert_eq!(shape_kind(&[&plain]), Some(ElementType::RECT));
    assert_eq!(shape_kind(&[&placeholder, &plain]), Some(ElementType::ELLIPSE));
    assert_eq!(shape_kind(&[&round]), Some(ElementType::RECT));
    assert_eq!(shape_kind(&[&rounded]), None);
    assert_eq!(shape_kind(&[&custom]), None);
    assert_eq!(shape_kind(&[&connector]), Some(ElementType::LINE));
    assert_eq!(shape_kind(&[&placeholder, &connector]), Some(ElementType::ELLIPSE));
}

#[test]
fn theme_effects_and_line_features() {
    assert!(!has_theme_effect(&node("<style><effectRef idx=\"0\"/></style>")));
    assert!(!has_theme_effect(&node("<style><effectRef/></style>")));
    assert!(!has_theme_effect(&node("<style/>")));
    assert!(has_theme_effect(&node("<style><effectRef idx=\"2\"/></style>")));
    assert!(!undrawn_line(&node("<ln><prstDash val=\"solid\"/><headEnd type=\"none\"/><tailEnd/></ln>")));
    assert!(undrawn_line(&node("<ln><prstDash val=\"dash\"/></ln>")));
    assert!(undrawn_line(&node("<ln><custDash/></ln>")));
    assert!(undrawn_line(&node("<ln><tailEnd type=\"triangle\"/></ln>")));
}

#[test]
fn theme_line_references() {
    let theme = themed(SCHEME);
    let reference = |idx: &str| node(&format!("<lnRef idx=\"{idx}\"/>"));
    assert!(matches!(line_style(&theme, &reference("0")), LineStyle::Clear));
    assert!(matches!(line_style(&theme, &reference("")), LineStyle::Clear));
    assert!(matches!(line_style(&theme, &reference("1")), LineStyle::Style(n) if n.attr("w") == "9525"));
    assert!(matches!(line_style(&theme, &reference("2")), LineStyle::Style(n) if n.attr("w") == "25400"));
    assert!(matches!(line_style(&theme, &reference("3")), LineStyle::Missing));
    let bare = Theme::with_defaults(None);
    assert!(matches!(line_style(&bare, &reference("1")), LineStyle::Missing));
}

#[test]
fn graphic_frames_and_merged_cells() {
    let chart = node("<graphicFrame><graphic><graphicData><chart/><tbl/></graphicData></graphic></graphicFrame>");
    assert!(matches!(frame(&chart), Frame::Chart(c) if c.name == "chart"));
    let table = node("<graphicFrame><graphic><graphicData><tbl><tblGrid/></tbl></graphicData></graphic></graphicFrame>");
    assert!(matches!(frame(&table), Frame::Table(t, g) if t.name == "tbl" && g.name == "tblGrid"));
    let gridless = node("<graphicFrame><graphic><graphicData><tbl/></graphicData></graphic></graphicFrame>");
    assert!(matches!(frame(&gridless), Frame::MissingGrid));
    let diagram = node("<graphicFrame><graphic><graphicData uri=\"http://schemas.openxmlformats.org/drawingml/2006/diagram\"/></graphic></graphicFrame>");
    assert!(matches!(frame(&diagram), Frame::Diagram));
    let other = node("<graphicFrame><graphic><graphicData uri=\"urn:ole\"/></graphic></graphicFrame>");
    assert!(matches!(frame(&other), Frame::Unsupported));
    assert!(matches!(frame(&node("<graphicFrame/>")), Frame::Unsupported));

    assert!(!merged_cell(&node("<tc gridSpan=\"1\" rowSpan=\"\"/>")));
    assert!(merged_cell(&node("<tc gridSpan=\"2\"/>")));
    assert!(merged_cell(&node("<tc rowSpan=\"3\"/>")));
    assert!(merged_cell(&node("<tc hMerge=\"1\"/>")));
    assert!(!merged_cell(&node("<tc vMerge=\"0\"/>")));
}

#[test]
fn substring_search() {
    assert!(contains("drawingml/diagram", "diagram"));
    assert!(contains("abc", ""));
    assert!(contains("abc", "abc"));
    assert!(!contains("ab", "abc"));
    assert!(!contains("diagra", "diagram"));
    assert!(contains("ééx", "éx"));
}

#[test]
fn shape_tree_entries() {
    let placeholder = node("<sp><nvSpPr><cNvPr/><nvPr><ph type=\"title\"/></nvPr></nvSpPr></sp>");
    assert_eq!(entry(&placeholder, true), Entry::Skip);
    assert_eq!(entry(&placeholder, false), Entry::Drawn);
    let hidden = node("<pic><nvPicPr><cNvPr hidden=\"1\"/></nvPicPr></pic>");
    assert!(is_hidden(&hidden));
    assert_eq!(entry(&hidden, false), Entry::Skip);
    assert!(!is_hidden(&node("<pic><nvPicPr><cNvPr hidden=\"0\"/></nvPicPr></pic>")));
    assert_eq!(entry(&node("<grpSp/>"), false), Entry::Group);
    assert_eq!(entry(&node("<grpSpPr/>"), false), Entry::Skip);
    assert_eq!(entry(&node("<graphicFrame/>"), true), Entry::Drawn);
    assert_eq!(entry(&node("<contentPart/>"), false), Entry::Unsupported);
}

#[test]
fn gradient_text_midpoint_stops() {
    let stops = |list: &str| node(&format!("<rPr><gradFill><gsLst>{list}</gsLst></gradFill></rPr>"));
    let gs = |pos: &str, color: &str| format!("<gs pos=\"{pos}\"><srgbClr val=\"{color}\"/></gs>");
    let around = stops(&(gs("0", "000000") + &gs("40000", "111111") + &gs("40000", "222222") + &gs("70000", "333333") + &gs("100000", "444444")));
    match text_fill(&around) {
        TextFill::Gradient(Some((40000, b)), Some((70000, a))) => {
            assert_eq!(b.children[0].attr("val"), "222222");
            assert_eq!(a.children[0].attr("val"), "333333");
        }
        _ => panic!("expected both midpoint stops"),
    }
    let at = stops(&(gs("50000", "AAAAAA") + &gs("90000", "BBBBBB")));
    assert!(matches!(text_fill(&at), TextFill::Gradient(Some((50000, _)), Some((50000, _)))));
    let high = stops(&(gs("60000", "AAAAAA") + &gs("x", "BBBBBB") + &gs("200000", "CCCCCC")));
    assert!(matches!(text_fill(&high), TextFill::Gradient(None, Some((60000, _)))));
    assert!(matches!(text_fill(&node("<rPr><gradFill/></rPr>")), TextFill::Gradient(None, None)));
    assert!(matches!(text_fill(&node("<rPr><solidFill/><gradFill/></rPr>")), TextFill::Plain));
    assert!(matches!(text_fill(&node("<rPr><noFill/></rPr>")), TextFill::Plain));
    assert!(matches!(text_fill(&node("<rPr/>")), TextFill::Plain));
}

#[test]
fn paragraph_defaults_follow_chain_order() {
    let defaults = parse(b"<defaultTextStyle><defPPr a=\"1\"/><lvl2pPr a=\"2\"/></defaultTextStyle>").unwrap();
    let master = parse(b"<bodyStyle><lvl2pPr a=\"3\"/></bodyStyle>").unwrap();
    let layout = parse(b"<sp><style><fontRef a=\"4\"/></style><txBody><lstStyle><lvl2pPr a=\"5\"/></lstStyle><p><pPr lvl=\"0\" a=\"x\"/></p><p><pPr lvl=\"1\" a=\"6\"/></p></txBody></sp>").unwrap();
    let shape = parse(b"<sp><txBody><lstStyle/><p><pPr lvl=\"1\" a=\"7\"/></p></txBody></sp>").unwrap();
    let body = shape.child("txBody").unwrap();
    let direct = body.children[1].child("pPr");
    let chain = [&layout, &shape];
    let out = paragraph_defaults(Some(&defaults), Some(&master), &chain, body, Some(1), 1, direct);
    let marks: Vec<&str> = out.iter().map(|n| n.attr("a")).collect();
    assert_eq!(marks, vec!["1", "2", "3", "4", "5", "6", "7"]);
}
