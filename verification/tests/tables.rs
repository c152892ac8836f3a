//! Table and worksheet layouts: DOCX table grids, PPTX table shapes and
//! worksheet grids.
use jz_office_core::docx::table::table_grid;
use jz_office_core::error::Error;
use jz_office_core::pptx::shapes::table_shape;
use jz_office_core::pptx::Budget as SlideBudget;
use jz_office_core::xlsx::cells::Workbook;
use jz_office_core::xlsx::sheet::sheet_grid;
use jz_office_core::xlsx::Budget;
use jz_office_core::xml::parse;

fn workbook() -> Workbook {
    Workbook {
        formats: vec![Some("General".to_owned()), Some("0.00".to_owned()), Some("0%".to_owned())],
        strings: vec!["first".to_owned()],
        date1904: false,
        budget: Budget::default(),
    }
}

#[test]
fn docx_grid_pads_rows_to_widest() {
    let table = parse(br#"<tbl><tblGrid><gridCol/><gridCol/></tblGrid>
        <tr><trPr><gridBefore val="1"/></trPr><tc/><tc><tcPr><gridSpan val="2"/></tcPr></tc></tr>
        <tr><tc/></tr></tbl>"#)
    .unwrap();
    let mut cells = 0;
    let grid = table_grid(&table, &mut cells);
    assert!(grid.failure.is_none());
    assert_eq!(grid.grid_columns, 2);
    assert_eq!(grid.columns, 4);
    assert_eq!(grid.rows.len(), 2);
    assert_eq!((grid.rows[0].before, grid.rows[0].spans.clone(), grid.rows[0].width), (1, vec![1, 2], 4));
    assert_eq!((grid.rows[1].before, grid.rows[1].spans.clone(), grid.rows[1].width), (0, vec![1], 1));
    assert_eq!(cells, 8);
}

#[test]
fn docx_grid_limits() {
    let mut wide = String::from("<tbl><tr>");
    for _ in 0..33 {
        wide.push_str("<tc/>");
    }
    wide.push_str("</tr></tbl>");
    let mut cells = 0;
    let grid = table_grid(&parse(wide.as_bytes()).unwrap(), &mut cells);
    assert!(matches!(grid.failure, Some(Error::Limit("DOCX table exceeds 32 columns"))));
    assert_eq!(grid.rows[0].spans.len(), 32);

    let mut cells = 4999;
    let grid = table_grid(&parse(b"<tbl><tr><tc/><tc/></tr></tbl>").unwrap(), &mut cells);
    assert!(matches!(grid.failure, Some(Error::Limit("DOCX exceeds 5000 table cells"))));
    assert_eq!(cells, 5000);

    let mut cells = 0;
    let grid = table_grid(&parse(br#"<tbl><tr><tc><tcPr><gridSpan val="x"/></tcPr></tc></tr></tbl>"#).unwrap(), &mut cells);
    assert!(matches!(grid.failure, Some(Error::Invalid("Invalid DOCX table grid count"))));

    let mut rows = String::from("<tbl>");
    for _ in 0..501 {
        rows.push_str("<tr/>");
    }
    rows.push_str("</tbl>");
    let mut cells = 0;
    let grid = table_grid(&parse(rows.as_bytes()).unwrap(), &mut cells);
    assert!(matches!(grid.failure, Some(Error::Limit("DOCX table exceeds 500 rows"))));
    assert_eq!(grid.rows.len(), 500);
}

#[test]
fn pptx_table_shape_rules() {
    let grid = parse(b"<tblGrid><gridCol/><gridCol/></tblGrid>").unwrap();
    let mut budget = SlideBudget::default();
    let shape = table_shape(&parse(b"<tbl><tr><tc/><tc/></tr><tr><tc/><tc/></tr></tbl>").unwrap(), &grid, &mut budget);
    assert!(shape.failure.is_none());
    assert_eq!(shape.cells, vec![2, 2]);
    assert_eq!(budget.objects, 4);

    let mut budget = SlideBudget::default();
    let shape = table_shape(&parse(b"<tbl><tr><tc/><tc/></tr><tr><tc/></tr></tbl>").unwrap(), &grid, &mut budget);
    assert!(matches!(shape.failure, Some(Error::Invalid("PPTX table is not rectangular"))));
    assert_eq!(shape.cells, vec![2, 1]);

    let mut budget = SlideBudget { objects: 4999, ..SlideBudget::default() };
    let shape = table_shape(&parse(b"<tbl><tr><tc/><tc/></tr></tbl>").unwrap(), &grid, &mut budget);
    assert!(matches!(shape.failure, Some(Error::Limit("PPTX exceeds 5000 elements and table cells"))));
    assert_eq!(shape.cells, vec![1]);

    let empty = parse(b"<tblGrid/>").unwrap();
    let shape = table_shape(&parse(b"<tbl/>").unwrap(), &empty, &mut SlideBudget::default());
    assert!(matches!(shape.failure, Some(Error::Invalid("PPTX table has no columns"))));
}

#[test]
fn sheet_grid_styles_extents_and_order() {
    let root = parse(br#"<worksheet><cols><col min="2" max="3" style="1"/></cols><sheetData>
        <row r="3"><c r="C3"/><c r="A3"/></row>
        <row r="1" s="2" customFormat="1"><c r="B1"/></row>
        <row r="2" s="2" customFormat="0"><c r="B2"/><c r="D2" s="2"/></row>
        </sheetData><mergeCells><mergeCell ref="E5:F6"/></mergeCells></worksheet>"#)
    .unwrap();
    let mut book = workbook();
    let mut warnings = Vec::new();
    let grid = sheet_grid(&root, false, &mut book, &mut warnings);
    assert!(grid.failure.is_none());
    let placed: Vec<(u32, u32, u32)> = grid.cells.iter().map(|c| (c.row, c.column, c.style)).collect();
    assert_eq!(placed, vec![(0, 1, 2), (1, 1, 1), (1, 3, 2), (2, 0, 0), (2, 2, 1)]);
    assert_eq!((grid.row_count, grid.column_count), (6, 6));
    assert_eq!(grid.rows.len(), 3);
    assert_eq!((grid.columns[0].start, grid.columns[0].end), (1, 2));
}

#[test]
fn sheet_grid_reports_duplicate_row() {
    let root = parse(br#"<worksheet><sheetData><row r="1"><c r="A1"/></row><row r="1"/></sheetData></worksheet>"#).unwrap();
    let mut book = workbook();
    let grid = sheet_grid(&root, false, &mut book, &mut Vec::new());
    assert!(matches!(grid.failure, Some(Error::Invalid("Duplicate XLSX row"))));
    assert_eq!(grid.cells.len(), 1);
    assert_eq!(grid.rows.len(), 1);
}
