use wkt::Wkt;
use wkt::WktError;
use wkt::WktItem;

#[test]
fn empty_string() {
    let wkt = Wkt::from_str("").ok().unwrap();
    assert_eq!(0, wkt.items.len());
}

#[test]
fn basic_point() {
    let mut wkt = Wkt::from_str("POINT (10 -20)").ok().unwrap();
    assert_eq!(1, wkt.items.len());
    let point = match wkt.items.pop().unwrap() {
        WktItem::Point(point) => point,
        _ => unreachable!(),
    };
    assert_eq!(10.0, point.coord.x.parse::<f64>().unwrap());
    assert_eq!(-20.0, point.coord.y.parse::<f64>().unwrap());
    assert_eq!(None, point.coord.z);
    assert_eq!(None, point.coord.m);
}

#[test]
fn basic_linestring() {
    let mut wkt = Wkt::from_str("LINESTRING (10 -20, -0 -0.5)").ok().unwrap();
    assert_eq!(1, wkt.items.len());
    let linestring = match wkt.items.pop().unwrap() {
        WktItem::LineString(linestring) => linestring,
        _ => unreachable!(),
    };
    assert_eq!(2, linestring.coords.len());

    assert_eq!(10.0, linestring.coords[0].x.parse::<f64>().unwrap());
    assert_eq!(-20.0, linestring.coords[0].y.parse::<f64>().unwrap());
    assert_eq!(None, linestring.coords[0].z);
    assert_eq!(None, linestring.coords[0].m);

    assert_eq!(0.0, linestring.coords[1].x.parse::<f64>().unwrap());
    assert_eq!(-0.5, linestring.coords[1].y.parse::<f64>().unwrap());
    assert_eq!(None, linestring.coords[1].z);
    assert_eq!(None, linestring.coords[1].m);
}

#[test]
fn invalid_points() {
    Wkt::from_str("POINT ()").err().unwrap();
    Wkt::from_str("POINT (10)").err().unwrap();
    Wkt::from_str("POINT 10").err().unwrap();
    Wkt::from_str("POINT (10 -20 40)").err().unwrap();
}

#[test]
fn basic_multilinestring() {
    let mut wkt = Wkt::from_str("MULTILINESTRING ((1 2, 3 4), (5 6))").ok().unwrap();
    assert_eq!(1, wkt.items.len());
    let mls = match wkt.items.pop().unwrap() {
        WktItem::MultiLineString(mls) => mls,
        _ => unreachable!(),
    };
    assert_eq!(2, mls.lines.len());
    assert_eq!(2, mls.lines[0].coords.len());
    assert_eq!(1, mls.lines[1].coords.len());
    assert_eq!(1.0, mls.lines[0].coords[0].x.parse::<f64>().unwrap());
    assert_eq!(2.0, mls.lines[0].coords[0].y.parse::<f64>().unwrap());
    assert_eq!(3.0, mls.lines[0].coords[1].x.parse::<f64>().unwrap());
    assert_eq!(4.0, mls.lines[0].coords[1].y.parse::<f64>().unwrap());
    assert_eq!(5.0, mls.lines[1].coords[0].x.parse::<f64>().unwrap());
    assert_eq!(6.0, mls.lines[1].coords[0].y.parse::<f64>().unwrap());
}

#[test]
fn lowercase_keyword_accepted() {
    let wkt = Wkt::from_str("point (1 2)").ok().unwrap();
    assert_eq!(1, wkt.items.len());
    match &wkt.items[0] {
        WktItem::Point(_) => {},
        _ => unreachable!(),
    }
}

#[test]
fn unknown_type_error() {
    assert_eq!(WktError::UnknownType, Wkt::from_str("SQUARE (1 2)").err().unwrap());
}

#[test]
fn non_ascii_keyword_error() {
    assert_eq!(WktError::NonAsciiKeyword, Wkt::from_str("P\u{d6}INT (1 2)").err().unwrap());
}

#[test]
fn leading_non_word_error() {
    assert_eq!(WktError::MalformedStructure, Wkt::from_str("10 20").err().unwrap());
}

#[test]
fn missing_close_paren_error() {
    assert_eq!(WktError::MalformedStructure, Wkt::from_str("POINT (10 -20").err().unwrap());
}

#[test]
fn empty_linestring_error() {
    assert_eq!(WktError::MalformedStructure, Wkt::from_str("LINESTRING ()").err().unwrap());
}

#[test]
fn dangling_comma_error() {
    assert_eq!(
        WktError::MalformedStructure,
        Wkt::from_str("LINESTRING (1 2, )").err().unwrap()
    );
}

#[test]
fn malformed_number_error() {
    assert_eq!(WktError::MalformedStructure, Wkt::from_str("POINT (10 -20p)").err().unwrap());
}

#[test]
fn trailing_tokens_ignored() {
    let wkt = Wkt::from_str("POINT (10 -20) leftovers").ok().unwrap();
    assert_eq!(1, wkt.items.len());
}

#[test]
fn coordinate_roundtrip() {
    let mut wkt = Wkt::from_str("POINT (10.25 -3.5)").ok().unwrap();
    let point = match wkt.items.pop().unwrap() {
        WktItem::Point(point) => point,
        _ => unreachable!(),
    };
    let x: f64 = point.coord.x.parse().unwrap();
    let y: f64 = point.coord.y.parse().unwrap();
    let text = format!("POINT ({} {})", x, y);
    let mut wkt2 = Wkt::from_str(&text).ok().unwrap();
    let point2 = match wkt2.items.pop().unwrap() {
        WktItem::Point(point2) => point2,
        _ => unreachable!(),
    };
    assert_eq!(x, point2.coord.x.parse::<f64>().unwrap());
    assert_eq!(y, point2.coord.y.parse::<f64>().unwrap());
}
