//! Worksheet row and cell placement, column spans and styles, merged ranges.
use jz_office_core::error::Error;
use jz_office_core::spreadsheet::CellRange;
use jz_office_core::xlsx::grid::{column_span, ColumnStyles, Merges, Placement};
use jz_office_core::xlsx::Budget;
use jz_office_core::xml::{parse, Node};

fn node(xml: &str) -> Node {
    parse(xml.as_bytes()).unwrap()
}

#[test]
fn rows_are_numbered_and_read_once() {
    let mut placement = Placement::new();
    assert_eq!(placement.start_row(&node("<row/>")).unwrap(), 0);
    assert_eq!(placement.start_row(&node("<row r=\"5\"/>")).unwrap(), 4);
    assert_eq!(placement.start_row(&node("<row/>")).unwrap(), 5);
    assert!(matches!(
        placement.start_row(&node("<row r=\"6\"/>")),
        Err(Error::Invalid("Duplicate XLSX row"))
    ));
    assert!(matches!(
        placement.start_row(&node("<row r=\"0\"/>")),
        Err(Error::Invalid("XLSX row is zero"))
    ));
    assert!(matches!(
        placement.start_row(&node("<row r=\"10001\"/>")),
        Err(Error::Limit("XLSX row exceeds 10000"))
    ));
    assert!(matches!(
        placement.start_row(&node("<row r=\"x\"/>")),
        Err(Error::Invalid("Invalid XLSX integer"))
    ));
    assert_eq!(placement.start_row(&node("<row r=\"10000\"/>")).unwrap(), 9999);
    assert!(matches!(
        placement.start_row(&node("<row/>")),
        Err(Error::Limit("XLSX row exceeds 10000"))
    ));
}

#[test]
fn cells_take_positions_of_their_own() {
    let mut placement = Placement::new();
    placement.start_row(&node("<row r=\"2\"/>")).unwrap();
    assert_eq!(placement.place(&node("<c/>")).unwrap(), (1, 0));
    assert_eq!(placement.place(&node("<c r=\"C2\"/>")).unwrap(), (1, 2));
    assert_eq!(placement.place(&node("<c/>")).unwrap(), (1, 3));
    assert!(matches!(
        placement.place(&node("<c r=\"A2\"/>")),
        Err(Error::Invalid("Duplicate XLSX cell"))
    ));
    assert!(matches!(
        placement.place(&node("<c r=\"E3\"/>")),
        Err(Error::Invalid("Cell reference does not match its row"))
    ));
    assert!(matches!(
        placement.place(&node("<c r=\"2\"/>")),
        Err(Error::Invalid("Invalid XLSX cell reference"))
    ));
    placement.start_row(&node("<row/>")).unwrap();
    assert_eq!(placement.place(&node("<c r=\"A3\"/>")).unwrap(), (2, 0));
    assert_eq!(placement.place(&node("<c r=\"IV3\"/>")).unwrap(), (2, 255));
    assert!(matches!(
        placement.place(&node("<c/>")),
        Err(Error::Limit("XLSX column exceeds 256"))
    ));
}

#[test]
fn column_spans_and_styles() {
    assert_eq!(column_span(&node("<col min=\"2\" max=\"4\"/>")).unwrap(), (1, 3));
    assert!(matches!(
        column_span(&node("<col min=\"4\" max=\"2\"/>")),
        Err(Error::Invalid("Reversed XLSX column range"))
    ));
    assert!(matches!(
        column_span(&node("<col min=\"0\" max=\"2\"/>")),
        Err(Error::Invalid("XLSX column is zero"))
    ));
    assert!(matches!(
        column_span(&node("<col max=\"2\"/>")),
        Err(Error::Invalid("Invalid XLSX integer"))
    ));
    assert!(matches!(
        column_span(&node("<col min=\"1\" max=\"257\"/>")),
        Err(Error::Limit("XLSX column exceeds 256"))
    ));
    let mut styles = ColumnStyles::new();
    styles.assign(1, 3, 7);
    styles.assign(3, 4, 9);
    assert_eq!(
        (0..6).map(|c| styles.get(c)).collect::<Vec<_>>(),
        vec![0, 7, 7, 9, 9, 0]
    );
}

#[test]
fn merged_ranges_never_overlap() {
    let mut merges = Merges::new();
    let mut budget = Budget::default();
    let first = merges.add(&node("<mergeCell ref=\"A1:B2\"/>"), &mut budget).unwrap();
    assert_eq!(first, CellRange { start_row: 0, start_column: 0, end_row: 1, end_column: 1 });
    assert!(matches!(
        merges.add(&node("<mergeCell ref=\"B2:C3\"/>"), &mut budget),
        Err(Error::Invalid("Overlapping XLSX merged ranges"))
    ));
    assert!(merges.add(&node("<mergeCell ref=\"C1:D2\"/>"), &mut budget).is_ok());
    assert!(matches!(
        merges.add(&node("<mergeCell ref=\"C1\"/>"), &mut budget),
        Err(Error::Invalid("Invalid XLSX merge range"))
    ));
    assert_eq!(merges.ranges.len(), 2);
    assert_eq!(budget.merges, 4);

    let mut spent = Budget { merges: 1000, ..Budget::default() };
    assert!(matches!(
        merges.add(&node("<mergeCell ref=\"E5:F6\"/>"), &mut spent),
        Err(Error::Limit("XLSX exceeds 1000 merged ranges"))
    ));
    assert_eq!(merges.ranges.len(), 2);
}
