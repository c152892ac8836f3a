//! Worksheet cell values, style references, colors and alignment.
use jz_office_core::error::Error;
use jz_office_core::model::VerticalAlignment;
use jz_office_core::spreadsheet::{sort_cells, Cell};
use jz_office_core::xlsx::cells::Workbook;
use jz_office_core::xlsx::colors::{indexed, rgb, Colors};
use jz_office_core::xlsx::styles::{
    alignment, applies, cell_fill, diagonal, edge, font_flags, lookup, number_format,
    number_formats, style_sheet, Alignment, CellFill,
};
use jz_office_core::xlsx::{unrendered_features, Budget};
use jz_office_core::xml::parse;

fn workbook() -> Workbook {
    Workbook {
        formats: vec![Some("General".to_owned()), Some("0.00".to_owned()), None],
        strings: vec!["first".to_owned(), "second".to_owned()],
        date1904: false,
        budget: Budget::default(),
    }
}

fn blank() -> Cell {
    Cell { row: 1, column: 2, text: String::new(), style: 0, numeric: false }
}

fn read(xml: &str) -> (Result<Cell, Error>, Vec<String>) {
    let node = parse(xml.as_bytes()).unwrap();
    let mut warnings = Vec::new();
    let r = workbook().cell(&node, blank(), &mut warnings);
    (r, warnings)
}

#[test]
fn shared_string_cell() {
    let (cell, _) = read(r#"<c t="s"><v>1</v></c>"#);
    assert_eq!(cell.unwrap().text, "second");
    assert!(matches!(read(r#"<c t="s"><v>2</v></c>"#).0, Err(Error::Invalid("Invalid shared string index"))));
}

#[test]
fn numeric_cell_uses_style_format() {
    let (cell, warnings) = read(r#"<c s="1"><v>2.5</v></c>"#);
    let cell = cell.unwrap();
    assert_eq!(cell.text, "2.50");
    assert!(cell.numeric);
    assert_eq!(cell.style, 1);
    assert_eq!((cell.row, cell.column), (1, 2));
    assert!(warnings.is_empty());
}

#[test]
fn numeric_cell_without_format_keeps_raw_value() {
    let (cell, warnings) = read(r#"<c s="2"><v>2.5</v></c>"#);
    assert_eq!(cell.unwrap().text, "2.5");
    assert_eq!(warnings, vec!["Unsupported number format or precision; raw numeric value retained".to_owned()]);
}

#[test]
fn boolean_and_error_cells() {
    assert_eq!(read(r#"<c t="b"><v>1</v></c>"#).0.unwrap().text, "TRUE");
    assert_eq!(read(r#"<c t="b"><v>0</v></c>"#).0.unwrap().text, "FALSE");
    assert!(matches!(read(r#"<c t="b"><v>2</v></c>"#).0, Err(Error::Invalid("Invalid XLSX boolean cell"))));
    assert_eq!(read(r#"<c t="e"><v>#DIV/0!</v></c>"#).0.unwrap().text, "#DIV/0!");
}

#[test]
fn inline_string_cell() {
    let (cell, _) = read(r#"<c t="inlineStr"><is><r><t>ab</t></r><t>c</t></is></c>"#);
    assert_eq!(cell.unwrap().text, "abc");
}

#[test]
fn formula_without_cached_value() {
    let (cell, warnings) = read(r#"<c><f>A1+1</f></c>"#);
    assert_eq!(cell.unwrap().text, "=A1+1");
    assert_eq!(warnings.len(), 1);
    let (cell, _) = read(r#"<c><f/><v></v></c>"#);
    assert_eq!(cell.unwrap().text, "[Formula result unavailable]");
    let (cell, warnings) = read(r#"<c t="str"><f>X</f><v></v></c>"#);
    assert_eq!(cell.unwrap().text, "");
    assert!(warnings.is_empty());
}

#[test]
fn date_cells_are_kept_with_warning() {
    let (cell, warnings) = read(r#"<c t="d"><v>2024-01-02</v></c>"#);
    assert_eq!(cell.unwrap().text, "2024-01-02");
    assert_eq!(warnings, vec!["ISO date cells are displayed as stored without number formatting".to_owned()]);
}

#[test]
fn invalid_cells_are_refused() {
    assert!(matches!(read(r#"<c><v>abc</v></c>"#).0, Err(Error::Invalid("Invalid XLSX numeric cell"))));
    assert!(matches!(read(r#"<c t="x"><v>1</v></c>"#).0, Err(Error::Invalid("Unsupported XLSX cell type"))));
    assert!(matches!(read(r#"<c s="3"><v>1</v></c>"#).0, Err(Error::Invalid("Invalid XLSX cell style reference"))));
    assert!(matches!(read(r#"<c s="x"><v>1</v></c>"#).0, Err(Error::Invalid("Invalid XLSX integer"))));
}

#[test]
fn cell_budget_is_enforced() {
    let node = parse(b"<c><v>1</v></c>").unwrap();
    let mut book = workbook();
    book.budget.cells = 50000;
    let mut warnings = Vec::new();
    assert!(matches!(book.cell(&node, blank(), &mut warnings), Err(Error::Limit("XLSX exceeds 50000 stored cells"))));
    let mut book = workbook();
    book.budget.text = 8 * 1024 * 1024;
    assert!(matches!(book.cell(&node, blank(), &mut warnings), Err(Error::Limit("XLSX text exceeds 8 MiB"))));
}

#[test]
fn style_index_uses_fallback() {
    let book = workbook();
    assert_eq!(book.style_index("", 2).unwrap(), 2);
    assert_eq!(book.style_index("1", 0).unwrap(), 1);
    assert!(book.style_index("", 3).is_err());
}

#[test]
fn rgb_colors_are_opaque() {
    assert_eq!(rgb("123456").unwrap(), 0xff123456);
    assert_eq!(rgb("00ABCDEF").unwrap(), 0xffabcdef);
    assert!(matches!(rgb("12345"), Err(Error::Invalid("Invalid XLSX RGB color"))));
    assert!(matches!(rgb("+12345"), Err(Error::Invalid("Invalid XLSX RGB color"))));
    assert_eq!(indexed(2), 0xffff0000);
    assert_eq!(indexed(63), 0xff333333);
}

#[test]
fn theme_palette_and_base_colors() {
    let theme = parse(
        br#"<theme><themeElements><clrScheme><dk1><sysClr val="windowText" lastClr="111111"/></dk1><lt1><srgbClr val="EEEEEE"/></lt1><accent1><srgbClr val="FF0000"/></accent1></clrScheme></themeElements></theme>"#,
    )
    .unwrap();
    let colors = Colors::new(Some(&theme)).unwrap();
    assert_eq!(colors.theme[0], 0xffeeeeee);
    assert_eq!(colors.theme[1], 0xff111111);
    assert_eq!(colors.theme[4], 0xffff0000);
    assert_eq!(colors.theme[2], 0xffeeece1);
    let mut warnings = Vec::new();
    let node = parse(br#"<color theme="4"/>"#).unwrap();
    assert_eq!(colors.base_color(Some(&node), 1, &mut warnings).unwrap(), 0xffff0000);
    assert!(warnings.is_empty());
    let defaults = Colors::new(None).unwrap();
    assert_eq!(defaults.base_color(Some(&node), 1, &mut warnings).unwrap(), 0xff4f81bd);
    assert_eq!(warnings.len(), 1);
    let indexed64 = parse(br#"<color indexed="64"/>"#).unwrap();
    assert_eq!(defaults.base_color(Some(&indexed64), 9, &mut warnings).unwrap(), 9);
    let bad = parse(br#"<color indexed="66"/>"#).unwrap();
    assert!(matches!(defaults.base_color(Some(&bad), 9, &mut warnings), Err(Error::Invalid("Invalid XLSX indexed color"))));
    let theme12 = parse(br#"<color theme="12"/>"#).unwrap();
    assert!(matches!(defaults.base_color(Some(&theme12), 9, &mut warnings), Err(Error::Invalid("Invalid XLSX theme color"))));
    assert_eq!(defaults.base_color(None, 5, &mut warnings).unwrap(), 5);
}

#[test]
fn invalid_theme_color_is_refused() {
    let theme = parse(br#"<theme><clrScheme><dk2><srgbClr val="XYZ"/></dk2></clrScheme></theme>"#).unwrap();
    assert!(matches!(Colors::new(Some(&theme)), Err(Error::Invalid("Invalid XLSX RGB color"))));
}

#[test]
fn style_component_lookup() {
    let items = [10, 20, 30];
    assert_eq!(*lookup(&items, "").unwrap(), 10);
    assert_eq!(*lookup(&items, "2").unwrap(), 30);
    assert!(matches!(lookup(&items, "3"), Err(Error::Invalid("Invalid XLSX style component reference"))));
}

#[test]
fn alignment_applies_and_warns() {
    let start = Alignment { horizontal: 3, vertical: VerticalAlignment::Bottom, wrap: false };
    let node = parse(br#"<alignment horizontal="center" vertical="top" wrapText="1"/>"#).unwrap();
    let mut warnings = Vec::new();
    let a = alignment(start, &node, &mut warnings).unwrap();
    assert_eq!(a, Alignment { horizontal: 1, vertical: VerticalAlignment::Top, wrap: true });
    assert!(warnings.is_empty());
    let odd = parse(br#"<alignment horizontal="justify" vertical="middle" indent="2"/>"#).unwrap();
    let b = alignment(start, &odd, &mut warnings).unwrap();
    assert_eq!(b, Alignment { horizontal: 3, vertical: VerticalAlignment::Bottom, wrap: false });
    assert_eq!(warnings.len(), 3);
    let bad = parse(br#"<alignment wrapText="yes"/>"#).unwrap();
    assert!(matches!(alignment(start, &bad, &mut warnings), Err(Error::Invalid("Invalid XLSX boolean"))));
}

#[test]
fn font_switches() {
    let flags = font_flags(&parse(b"<font><b/><i val=\"0\"/><u/><strike/></font>").unwrap()).unwrap();
    assert!(flags.bold && !flags.italic && flags.underline && flags.unsupported);
    let plain = font_flags(&parse(b"<font><u val=\"none\"/><sz val=\"11\"/></font>").unwrap()).unwrap();
    assert!(!plain.bold && !plain.italic && !plain.underline && !plain.unsupported);
    let script = font_flags(&parse(b"<font><vertAlign val=\"superscript\"/></font>").unwrap()).unwrap();
    assert!(script.unsupported);
    assert!(matches!(
        font_flags(&parse(b"<font><b val=\"yes\"/></font>").unwrap()),
        Err(Error::Invalid("Invalid XLSX boolean"))
    ));
}

#[test]
fn cell_fill_patterns() {
    let fill = |xml: &str| parse(xml.as_bytes()).unwrap();
    let solid = fill("<fill><patternFill patternType=\"solid\"><fgColor rgb=\"FFFF0000\"/></patternFill></fill>");
    assert!(matches!(cell_fill(&solid), CellFill::Solid(Some(c)) if c.attr("rgb") == "FFFF0000"));
    let bare = fill("<fill><patternFill patternType=\"solid\"/></fill>");
    assert!(matches!(cell_fill(&bare), CellFill::Solid(None)));
    assert!(matches!(cell_fill(&fill("<fill><patternFill patternType=\"gray125\"/></fill>")), CellFill::Clear));
    assert!(matches!(cell_fill(&fill("<fill><patternFill/></fill>")), CellFill::Clear));
    assert!(matches!(
        cell_fill(&fill("<fill><patternFill patternType=\"darkGrid\"/></fill>")),
        CellFill::UnsupportedPattern
    ));
    assert!(matches!(cell_fill(&fill("<fill><gradientFill/></fill>")), CellFill::Gradient));
    assert!(matches!(cell_fill(&fill("<fill/>")), CellFill::Clear));
}

#[test]
fn border_edges() {
    let border = parse(
        b"<border><left style=\"thin\"><color rgb=\"FF000000\"/></left><right style=\"medium\"/>\
          <top style=\"none\"/><diagonal style=\"thin\"/></border>",
    )
    .unwrap();
    assert!(matches!(edge(&border, "left"), Some((Some(c), true)) if c.attr("rgb") == "FF000000"));
    assert!(matches!(edge(&border, "right"), Some((None, false))));
    assert!(edge(&border, "top").is_none());
    assert!(edge(&border, "bottom").is_none());
    assert!(diagonal(&border));
    assert!(!diagonal(&parse(b"<border><diagonal/></border>").unwrap()));
}

#[test]
fn style_sheet_shape_and_limits() {
    assert!(style_sheet(&parse(b"<styleSheet><fonts/></styleSheet>").unwrap()).is_ok());
    assert!(matches!(
        style_sheet(&parse(b"<workbook/>").unwrap()),
        Err(Error::Invalid("Invalid XLSX styles part"))
    ));
    let many = format!("<styleSheet><cellXfs>{}</cellXfs></styleSheet>", "<xf/>".repeat(2049));
    assert!(matches!(
        style_sheet(&parse(many.as_bytes()).unwrap()),
        Err(Error::Limit("XLSX style table exceeds 2048 entries"))
    ));
    let full = format!("<styleSheet><cellXfs>{}</cellXfs></styleSheet>", "<xf/>".repeat(2048));
    assert!(style_sheet(&parse(full.as_bytes()).unwrap()).is_ok());
}

#[test]
fn custom_number_formats() {
    let table = parse(
        b"<numFmts><numFmt numFmtId=\"164\" formatCode=\"0.000\"/><other/>\
          <numFmt numFmtId=\"165\" formatCode=\"#,##0\"/></numFmts>",
    )
    .unwrap();
    let formats = number_formats(Some(&table)).unwrap();
    assert_eq!(formats, vec![(164, "0.000".to_owned()), (165, "#,##0".to_owned())]);
    assert!(number_formats(None).unwrap().is_empty());
    let duplicate = parse(
        b"<numFmts><numFmt numFmtId=\"164\" formatCode=\"0\"/><numFmt numFmtId=\"164\" formatCode=\"0.0\"/></numFmts>",
    )
    .unwrap();
    assert!(matches!(
        number_formats(Some(&duplicate)),
        Err(Error::Invalid("Missing or duplicate XLSX number format"))
    ));
    let empty = parse(b"<numFmts><numFmt numFmtId=\"164\"/></numFmts>").unwrap();
    assert!(matches!(
        number_formats(Some(&empty)),
        Err(Error::Invalid("Missing or duplicate XLSX number format"))
    ));
    let bad = parse(b"<numFmts><numFmt numFmtId=\"x\" formatCode=\"0\"/></numFmts>").unwrap();
    assert!(matches!(number_formats(Some(&bad)), Err(Error::Invalid("Invalid XLSX integer"))));
}

#[test]
fn cell_format_components() {
    let xf = parse(b"<xf fontId=\"1\" applyFont=\"0\" fillId=\"2\" numFmtId=\"164\"/>").unwrap();
    assert!(!applies(&xf, "fontId", "applyFont").unwrap());
    assert!(applies(&xf, "fillId", "applyFill").unwrap());
    assert!(!applies(&xf, "borderId", "applyBorder").unwrap());
    let odd = parse(b"<xf borderId=\"1\" applyBorder=\"maybe\" applyFont=\"maybe\"/>").unwrap();
    assert!(!applies(&odd, "fontId", "applyFont").unwrap());
    assert!(applies(&odd, "borderId", "applyBorder").is_err());

    let formats = vec![(164, "0.000".to_owned())];
    let general = Some("General".to_owned());
    assert_eq!(number_format(&formats, &xf, general.clone()).unwrap(), Some("0.000".to_owned()));
    let builtin = parse(b"<xf numFmtId=\"10\"/>").unwrap();
    assert_eq!(number_format(&formats, &builtin, general.clone()).unwrap(), Some("0.00%".to_owned()));
    let unknown = parse(b"<xf numFmtId=\"300\"/>").unwrap();
    assert_eq!(number_format(&formats, &unknown, general.clone()).unwrap(), None);
    let kept = parse(b"<xf numFmtId=\"164\" applyNumberFormat=\"0\"/>").unwrap();
    assert_eq!(number_format(&formats, &kept, general.clone()).unwrap(), general);
    let none = parse(b"<xf/>").unwrap();
    assert_eq!(number_format(&formats, &none, None).unwrap(), None);
    let bad = parse(b"<xf numFmtId=\"-1\" applyNumberFormat=\"0\"/>").unwrap();
    assert!(matches!(number_format(&formats, &bad, None), Err(Error::Invalid("Invalid XLSX integer"))));
}

fn at(row: u32, column: u32, text: &str) -> Cell {
    Cell { row, column, text: text.to_owned(), style: 0, numeric: false }
}

#[test]
fn cells_sort_row_major() {
    let mut cells = vec![at(2, 0, "c"), at(0, 5, "b"), at(0, 1, "a"), at(2, 0, "d"), at(1, 9, "x")];
    sort_cells(&mut cells);
    let order: Vec<(u32, u32, &str)> = cells.iter().map(|c| (c.row, c.column, c.text.as_str())).collect();
    assert_eq!(order, vec![(0, 1, "a"), (0, 5, "b"), (1, 9, "x"), (2, 0, "c"), (2, 0, "d")]);
}

#[test]
fn unrendered_worksheet_features_counted() {
    let root = parse(b"<worksheet><sheetData/><autoFilter/><drawing/><extLst/><cols/></worksheet>").unwrap();
    assert_eq!(unrendered_features(&root), 3);
    let plain = parse(b"<worksheet><sheetData/></worksheet>").unwrap();
    assert_eq!(unrendered_features(&plain), 0);
}
