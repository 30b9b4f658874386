use rasterizer::parsing::{parse_vertex, Config, ParseVertexError, VERTEX_FORMAT_MESSAGE};
use rasterizer::triangle::Point;

#[test]
fn parses_plain_vertex() {
    assert_eq!(Point::parse("(1, 2)"), Ok(Point::new(1, 2)));
    assert_eq!(Point::parse("(10,20)"), Ok(Point::new(10, 20)));
    assert_eq!("(7,8)".parse::<Point>(), Ok(Point::new(7, 8)));
}

#[test]
fn parses_with_spaces_and_plus() {
    assert_eq!(Point::parse("( +3 ,\t4 )"), Ok(Point::new(3, 4)));
    assert_eq!(Point::parse("(0004,\u{3000}5)"), Ok(Point::new(4, 5)));
}

#[test]
fn parses_largest_coordinate() {
    assert_eq!(Point::parse("(4294967295,0)"), Ok(Point::new(u32::MAX, 0)));
    assert_eq!(Point::parse("(4294967296,0)"), Err(ParseVertexError));
    assert_eq!(Point::parse("(0,99999999999999999999999)"), Err(ParseVertexError));
}

#[test]
fn rejects_malformed_vertices() {
    for s in ["", "(", ")", "()", "1, 2", " (1,2)", "(1,2) ", "(1 2)", "(,1)", "(1,)", "(1,2,3)",
        "(-1,2)", "(+,2)", "(1,a)", "[1,2]", "(1 0,2)"] {
        assert_eq!(Point::parse(s), Err(ParseVertexError), "{s}");
    }
}

#[test]
fn parse_vertex_reports_format() {
    assert_eq!(parse_vertex("(3,4)"), Ok(Point::new(3, 4)));
    let e = parse_vertex("3,4").unwrap_err();
    assert_eq!(e, VERTEX_FORMAT_MESSAGE);
    assert_eq!(e, "Could not parse into vertex. Should be in the form `(x, y)");
}

fn config(v1: Point, v2: Point, v3: Point) -> Config {
    Config { filename: "out.png".to_string(), width: 512, height: 256, vertex_1: v1, vertex_2: v2, vertex_3: v3 }
}

#[test]
fn validate_accepts_pixels() {
    let c = config(Point::new(0, 0), Point::new(511, 255), Point::new(100, 200));
    assert_eq!(c.validate(), Ok(()));
}

#[test]
fn validate_rejects_column() {
    let c = config(Point::new(0, 0), Point::new(512, 0), Point::new(0, 0));
    assert_eq!(c.validate(), Err("Given x: 512 is greater than the image height: 511".to_string()));
}

#[test]
fn validate_rejects_row() {
    let c = config(Point::new(3, 256), Point::new(0, 0), Point::new(0, 0));
    assert_eq!(c.validate(), Err("Given y: 256 is greater than the image height: 255".to_string()));
}

#[test]
fn validate_column_message_small_image() {
    let c = Config { filename: "out.png".to_string(), width: 5, height: 5, vertex_1: Point::new(5, 0), vertex_2: Point::new(0, 0), vertex_3: Point::new(0, 0) };
    assert_eq!(c.validate(), Err("Given x: 5 is greater than the image height: 4".to_string()));
}

#[test]
fn validate_reports_first_vertex_and_column_first() {
    let c = config(Point::new(0, 0), Point::new(1000, 9000), Point::new(7, 4000));
    assert_eq!(c.validate(), Err("Given x: 1000 is greater than the image height: 511".to_string()));
}
