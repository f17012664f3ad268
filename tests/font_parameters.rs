use voxel_world::bitmap_font::{init_parameter, CommonParameters, FontError, Glyph, Parameters};

fn params(pairs: &[(&str, &str)]) -> Parameters {
    pairs.iter().map(|(k, v)| (k.to_string(), v.to_string())).collect()
}

#[test]
fn parameter_is_read_trimmed() {
    let p = params(&[("x", " 12 "), ("y", "-3")]);
    assert_eq!(init_parameter(&p, "x"), Ok(12));
    assert_eq!(init_parameter(&p, "y"), Ok(-3));
}

#[test]
fn later_parameter_overrides_earlier() {
    let p = params(&[("x", "1"), ("x", "2")]);
    assert_eq!(init_parameter(&p, "x"), Ok(2));
}

#[test]
fn missing_and_invalid_parameters() {
    let p = params(&[("x", "abc")]);
    assert_eq!(init_parameter(&p, "x"), Err(FontError::InvalidParameter));
    assert_eq!(init_parameter(&p, "y"), Err(FontError::MissingParameter));
    let big = params(&[("x", "2147483648")]);
    assert_eq!(init_parameter(&big, "x"), Err(FontError::InvalidParameter));
}

#[test]
fn glyph_from_parameters() {
    let p = params(&[
        ("id", "65"),
        ("x", "10"),
        ("y", "20"),
        ("width", "7"),
        ("height", "9"),
        ("xoffset", "-1"),
        ("yoffset", "2"),
        ("xadvance", "8"),
        ("page", "0"),
    ]);
    let g = Glyph::new(&p).unwrap();
    assert_eq!(
        g,
        Glyph { id: 65, x: 10, y: 20, width: 7, height: 9, x_offset: -1, y_offset: 2, x_advance: 8 }
    );
}

#[test]
fn glyph_reports_first_failing_parameter() {
    let p = params(&[("x", "q"), ("id", "1")]);
    assert_eq!(Glyph::new(&p), Err(FontError::InvalidParameter));
    let p = params(&[("x", "1")]);
    assert_eq!(Glyph::new(&p), Err(FontError::MissingParameter));
}

#[test]
fn common_parameters_from_parameters() {
    let p = params(&[("lineHeight", "32"), ("base", "26"), ("scaleW", "256"), ("scaleH", "128")]);
    assert_eq!(
        CommonParameters::new(&p),
        Ok(CommonParameters { line_height: 32, texture_width: 256, texture_height: 128 })
    );
    let p = params(&[("lineHeight", "32"), ("scaleW", "256")]);
    assert_eq!(CommonParameters::new(&p), Err(FontError::MissingParameter));
}

use voxel_world::bitmap_font::{parse_line, LineType};

fn pairs(t: &LineType) -> Vec<(String, String)> {
    match t {
        LineType::Info(p) | LineType::Common(p) | LineType::Page(p) | LineType::Chars(p) | LineType::Char(p) => p.clone(),
    }
}

#[test]
fn parse_line_reads_kind_and_pairs() {
    let t = parse_line("  char id=65 x=10 y=20 page=0   ").unwrap();
    assert!(matches!(t, LineType::Char(_)));
    // The last value has no terminator after trimming and is not stored.
    assert_eq!(pairs(&t), params(&[("id", "65"), ("x", "10"), ("y", "20")]));
}

#[test]
fn parse_line_reads_quoted_and_escaped_values() {
    let t = parse_line("info face=\"Vs Regular\" size=32 bold=0").unwrap();
    assert!(matches!(t, LineType::Info(_)));
    assert_eq!(pairs(&t), params(&[("face", "Vs Regular"), ("size", "32")]));
    let t = parse_line("page id=0 file=\"a\\\"b.png\" x=1").unwrap();
    assert!(matches!(t, LineType::Page(_)));
    assert_eq!(pairs(&t), params(&[("id", "0"), ("file", "a\"b.png")]));
}

#[test]
fn parse_line_kinds() {
    assert!(matches!(parse_line("common lineHeight=32 base=26 "), Ok(LineType::Common(_))));
    assert!(matches!(parse_line("chars count=95 "), Ok(LineType::Chars(_))));
    assert_eq!(parse_line("kerning first=1 second=2 amount=0"), Err(FontError::UnknownLineType));
    assert_eq!(parse_line("chars"), Err(FontError::UnknownLineType));
}

#[test]
fn glyph_from_a_parsed_line() {
    let t = parse_line("char id=66 x=1 y=2 width=3 height=4 xoffset=5 yoffset=6 xadvance=7 page=0").unwrap();
    let g = Glyph::new(&pairs(&t)).unwrap();
    assert_eq!(g, Glyph { id: 66, x: 1, y: 2, width: 3, height: 4, x_offset: 5, y_offset: 6, x_advance: 7 });
}
