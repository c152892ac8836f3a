//! Line chart structure and raw series data.
use jz_office_core::pptx::line_chart::{line_chart, series_data, Blanks};
use jz_office_core::xml::{parse, Node};

fn node(xml: &str) -> Node {
    parse(xml.as_bytes()).unwrap()
}

fn values(points: &[&str]) -> String {
    let pts: String = points
        .iter()
        .enumerate()
        .map(|(i, v)| format!("<c:pt idx=\"{i}\"><c:v>{v}</c:v></c:pt>"))
        .collect();
    format!("<c:numCache><c:ptCount val=\"{}\"/>{pts}</c:numCache>", points.len())
}

fn series(points: &[&str]) -> String {
    format!("<c:ser><c:order val=\"0\"/><c:val><c:numRef>{}</c:numRef></c:val></c:ser>", values(points))
}

fn chart(body: &str, extra: &str) -> String {
    format!(
        "<c:chartSpace xmlns:c=\"urn:c\"><c:chart>{extra}<c:plotArea>\
         <c:lineChart><c:grouping val=\"standard\"/>{body}<c:axId val=\"1\"/><c:axId val=\"2\"/></c:lineChart>\
         <c:catAx><c:axId val=\"1\"/></c:catAx><c:valAx><c:axId val=\"2\"/></c:valAx>\
         </c:plotArea></c:chart></c:chartSpace>"
    )
}

#[test]
fn standard_line_chart_is_recognised() {
    let root = node(&chart(&series(&["1", "2"]), "<c:dispBlanksAs val=\"span\"/>"));
    let shape = line_chart(&root).unwrap();
    assert_eq!(shape.lines.name, "lineChart");
    assert_eq!(shape.x_axis.name, "catAx");
    assert_eq!(shape.y_axis.name, "valAx");
    assert_eq!(shape.blanks, Blanks::Span);
    let plain = node(&chart(&series(&["1"]), ""));
    assert_eq!(line_chart(&plain).unwrap().blanks, Blanks::Gap);
}

#[test]
fn other_charts_are_refused() {
    let bar = chart(&series(&["1"]), "").replace("lineChart", "barChart");
    assert!(line_chart(&node(&bar)).is_none());
    let stacked = chart(&series(&["1"]), "").replace("standard", "stacked");
    assert!(line_chart(&node(&stacked)).is_none());
    let unknown_blanks = chart(&series(&["1"]), "<c:dispBlanksAs val=\"other\"/>");
    assert!(line_chart(&node(&unknown_blanks)).is_none());
    let logarithmic = chart(&series(&["1"]), "")
        .replace("<c:valAx>", "<c:valAx><c:scaling><c:logBase val=\"10\"/></c:scaling>");
    assert!(line_chart(&node(&logarithmic)).is_none());
    let unlinked = chart(&series(&["1"]), "").replace("<c:axId val=\"2\"/></c:lineChart>", "</c:lineChart>");
    assert!(line_chart(&node(&unlinked)).is_none());
    let two_values = chart(&series(&["1"]), "").replace("catAx", "valAx");
    assert!(line_chart(&node(&two_values)).is_none());
    assert!(line_chart(&node("<c:chartSpace xmlns:c=\"urn:c\"/>")).is_none());
    assert!(line_chart(&node("<chart/>")).is_none());
}

#[test]
fn series_caches_and_limits() {
    let lines = |body: String| node(&format!("<c:lineChart xmlns:c=\"urn:c\">{body}</c:lineChart>"));
    let two = lines(series(&["1", "#N/A"]) + &series(&["", "3"]));
    let data = series_data(&two).unwrap();
    assert_eq!(data.len(), 2);
    assert_eq!(data[0].values, vec![Some("1"), Some("#N/A")]);
    assert_eq!(data[0].categories, vec![None, None]);
    assert_eq!(data[1].values, vec![Some(""), Some("3")]);

    assert!(series_data(&lines(String::new())).is_none());
    assert!(series_data(&lines(series(&["", "#N/A"]))).is_none());
    let nine: String = (0..9).map(|_| series(&["1"])).collect();
    assert!(series_data(&lines(nine)).is_none());
    let eight: String = (0..8).map(|_| series(&["1"])).collect();
    assert_eq!(series_data(&lines(eight)).unwrap().len(), 8);
    let big: Vec<&str> = vec!["1"; 2048];
    let three: String = (0..3).map(|_| series(&big)).collect();
    assert!(series_data(&lines(three)).is_none());
    let two_full: String = (0..2).map(|_| series(&big)).collect();
    assert_eq!(series_data(&lines(two_full)).unwrap().len(), 2);

    let with_categories = format!(
        "<c:ser><c:cat><c:strRef><c:strCache><c:ptCount val=\"2\"/>\
         <c:pt idx=\"0\"><c:v>Q1</c:v></c:pt><c:pt idx=\"1\"><c:v>Q2</c:v></c:pt></c:strCache></c:strRef></c:cat>\
         <c:val><c:numRef>{}</c:numRef></c:val></c:ser>",
        values(&["5", "6"])
    );
    let labelled = lines(with_categories);
    let data = series_data(&labelled).unwrap();
    assert_eq!(data[0].categories, vec![Some("Q1"), Some("Q2")]);
    let mismatched = format!(
        "<c:ser><c:cat><c:strLit><c:ptCount val=\"1\"/><c:pt idx=\"0\"><c:v>Q1</c:v></c:pt></c:strLit></c:cat>\
         <c:val><c:numRef>{}</c:numRef></c:val></c:ser>",
        values(&["5", "6"])
    );
    assert!(series_data(&lines(mismatched)).is_none());
}
