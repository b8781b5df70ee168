use text_layer::family::font_family;
use text_layer::line::{GlyphItem, GlyphMetric, Line, WritingMode};
use text_layer::markup::{
    attribute, emit_line, list_attribute, position_attribute, render, run_element,
    size_attribute, text_attribute, transform_attribute, Attr, Axis, Piece, Placement,
    RenderError, SinkWrite, Tag, TextRun,
};
use text_layer::offsets::Offset;
use text_layer::scalar::Scalar;

fn num(v: f32) -> Scalar {
    Scalar::from_bits(v.to_bits())
}

fn item(x: f32, y: f32, gid: i32, c: char) -> GlyphItem {
    GlyphItem { x: num(x), y: num(y), gid, ucs: c as i32, advance: Some(num(0.5)) }
}

fn placement() -> Placement {
    Placement { a: num(1.0), b: num(0.0), c: num(0.0), d: num(-1.0), e: num(72.0), f: num(700.0) }
}

fn run(name: &str, size: f32, mode: WritingMode, items: Vec<GlyphItem>) -> TextRun {
    TextRun { font_name: name.to_string(), font_size: num(size), placement: placement(), mode, items }
}

fn own(primary: f32, width: f32) -> Offset {
    Offset { primary: num(primary), width: num(width), step: 0, parts: 1 }
}

fn text(value: &str) -> Piece {
    Piece::Text(value.to_string())
}

fn attr(name: &str, value: Vec<Piece>) -> Attr {
    Attr { name: name.to_string(), value }
}

fn placement_pieces() -> Vec<Piece> {
    vec![
        text("matrix("),
        Piece::Number(num(1.0)),
        text(","),
        Piece::Number(num(0.0)),
        text(","),
        Piece::Number(num(0.0)),
        text(","),
        Piece::Number(num(-1.0)),
        text(","),
        Piece::Number(num(72.0)),
        text(","),
        Piece::Number(num(700.0)),
        text(")"),
    ]
}

#[test]
fn family_drops_subset_tag_and_style_suffix() {
    assert_eq!(font_family("ABCDEF+Helvetica-Bold"), "Helvetica");
    assert_eq!(font_family("Arial"), "Arial");
}

#[test]
fn family_edge_cases() {
    assert_eq!(font_family(""), "");
    assert_eq!(font_family("ABCDEF+Times"), "Times");
    assert_eq!(font_family("Times-Italic"), "Times");
    assert_eq!(font_family("A+B+C-D-E"), "B+C-D");
    assert_eq!(font_family("Bold-Face+Name"), "Name");
    assert_eq!(font_family("Name+"), "");
    assert_eq!(font_family("-Bold"), "");
    assert_eq!(font_family("ＡＢ+Ｍincho-Ｗ3"), "Ｍincho");
}

#[test]
fn a_run_without_a_font_size_is_refused() {
    let items = vec![item(0.0, 0.0, 1, 'a')];
    assert_eq!(
        render(&run("Arial", 0.0, WritingMode::Horizontal, items.clone())),
        Err(RenderError::InvalidTransform)
    );
    assert_eq!(
        render(&run("Arial", -0.0, WritingMode::Horizontal, items.clone())),
        Err(RenderError::InvalidTransform)
    );
    assert_eq!(
        render(&run("Arial", f32::NAN, WritingMode::Horizontal, items.clone())),
        Err(RenderError::InvalidTransform)
    );
    assert_eq!(
        render(&run("Arial", f32::INFINITY, WritingMode::Horizontal, items)),
        Err(RenderError::InvalidTransform)
    );
}

#[test]
fn a_run_without_characters_writes_nothing() {
    let items = vec![GlyphItem { x: num(0.0), y: num(0.0), gid: 1, ucs: -1, advance: None }];
    assert_eq!(render(&run("Arial", 12.0, WritingMode::Horizontal, items)), Ok(Vec::new()));
    assert_eq!(render(&run("Arial", 12.0, WritingMode::Vertical, Vec::new())), Ok(Vec::new()));
}

#[test]
fn a_horizontal_run_is_written_line_by_line() {
    let items = vec![item(0.0, 0.0, 1, 'H'), item(0.5, 0.0, 2, 'i'), item(0.0, 1.0, 3, '!')];
    let writes = render(&run("ABCDEF+Helvetica-Bold", 12.0, WritingMode::Horizontal, items)).unwrap();
    let expected = vec![
        SinkWrite::Start {
            tag: Tag::Run,
            attributes: vec![
                attr("xml:space", vec![text("preserve")]),
                attr("transform", placement_pieces()),
                attr("font-family", vec![text("Helvetica")]),
                attr("font-size", vec![Piece::Number(num(12.0)), text("pt")]),
                attr("opacity", vec![text("0")]),
            ],
        },
        SinkWrite::Start {
            tag: Tag::Line,
            attributes: vec![
                attr("y", vec![Piece::Number(num(0.0))]),
                attr(
                    "x",
                    vec![Piece::Position(own(0.0, 0.5)), text(" "), Piece::Position(own(0.5, 0.5))],
                ),
            ],
        },
        SinkWrite::Text("Hi".to_string()),
        SinkWrite::End(Tag::Line),
        SinkWrite::Start {
            tag: Tag::Line,
            attributes: vec![
                attr("y", vec![Piece::Number(num(1.0))]),
                attr("x", vec![Piece::Position(own(0.0, 0.5))]),
            ],
        },
        SinkWrite::Text("!".to_string()),
        SinkWrite::End(Tag::Line),
        SinkWrite::End(Tag::Run),
    ];
    assert_eq!(writes, expected);
}

#[test]
fn a_vertical_run_names_its_writing_mode_and_swaps_the_axes() {
    let items = vec![item(3.0, 0.0, 1, 'a'), item(3.0, 1.0, 1, 'b')];
    let writes = render(&run("Mincho", 10.0, WritingMode::Vertical, items)).unwrap();
    assert_eq!(writes.len(), 5);
    assert_eq!(
        writes[0],
        SinkWrite::Start {
            tag: Tag::Run,
            attributes: vec![
                attr("xml:space", vec![text("preserve")]),
                attr("transform", placement_pieces()),
                attr("font-family", vec![text("Mincho")]),
                attr("font-size", vec![Piece::Number(num(10.0)), text("pt")]),
                attr("writing-mode", vec![text("tb")]),
                attr("opacity", vec![text("0")]),
            ],
        }
    );
    assert_eq!(
        writes[1],
        SinkWrite::Start {
            tag: Tag::Line,
            attributes: vec![
                attr("x", vec![Piece::Number(num(3.0))]),
                attr(
                    "y",
                    vec![Piece::Position(own(0.0, 0.5)), text(" "), Piece::Position(own(1.0, 0.5))],
                ),
            ],
        }
    );
}

#[test]
fn every_start_has_its_end_in_nesting_order() {
    let items = vec![item(0.0, 0.0, 1, 'a'), item(0.0, 1.0, 1, 'b'), item(0.0, 0.0, 1, 'c')];
    let writes = render(&run("Arial", 12.0, WritingMode::Horizontal, items)).unwrap();
    let mut open: Vec<Tag> = Vec::new();
    for w in writes.iter() {
        match w {
            SinkWrite::Start { tag, .. } => open.push(*tag),
            SinkWrite::End(tag) => assert_eq!(open.pop(), Some(*tag)),
            SinkWrite::Text(_) => assert_eq!(open.last(), Some(&Tag::Line)),
        }
    }
    assert!(open.is_empty());
    assert_eq!(writes.len(), 2 + 3 * 3);
}

#[test]
fn rendering_twice_gives_the_same_writes() {
    let items = vec![item(0.0, 0.0, 1, 'a'), item(1.0, 0.0, -1, '<'), item(0.0, 2.0, 1, 'c')];
    let r = run("ABCDEF+Helvetica-Bold", 9.5, WritingMode::Horizontal, items);
    let first = render(&r);
    let second = render(&r.clone());
    assert!(first.is_ok());
    assert_eq!(first, second);
}

#[test]
fn reserved_characters_are_escaped_in_text() {
    let items = vec![
        item(0.0, 0.0, 1, 'a'),
        item(1.0, 0.0, 1, '<'),
        item(2.0, 0.0, 1, '&'),
        item(3.0, 0.0, 1, '>'),
        item(4.0, 0.0, 1, 'b'),
    ];
    let writes = render(&run("Arial", 12.0, WritingMode::Horizontal, items)).unwrap();
    assert_eq!(writes[2], SinkWrite::Text("a&lt;&amp;&gt;b".to_string()));
}

#[test]
fn escaped_text_decodes_to_the_plain_text() {
    let plain = "x < y && \"q\" > 'z' \r é 漢";
    let line = Line {
        secondary: num(0.0),
        glyphs: vec![GlyphMetric {
            width: num(1.0),
            primary: num(0.0),
            followings: plain.chars().count() - 1,
        }],
        text: plain.chars().collect(),
    };
    let mut writes = Vec::new();
    emit_line(&line, WritingMode::Horizontal, &mut writes);
    assert_eq!(writes.len(), 3);
    match &writes[1] {
        SinkWrite::Text(escaped) => {
            assert_eq!(escaped, "x &lt; y &amp;&amp; &quot;q&quot; &gt; &apos;z&apos; &#13; é 漢");
            assert!(!escaped.contains('<') && !escaped.contains('>'));
            assert_eq!(quick_xml::escape::unescape(escaped).unwrap(), plain);
        }
        _ => panic!("the second write of a line is its text"),
    }
}

#[test]
fn emit_line_appends_to_what_was_written() {
    let line = Line {
        secondary: num(2.0),
        glyphs: vec![GlyphMetric { width: num(0.5), primary: num(1.0), followings: 0 }],
        text: vec!['a'],
    };
    let mut writes = vec![SinkWrite::End(Tag::Run)];
    emit_line(&line, WritingMode::Vertical, &mut writes);
    assert_eq!(writes.len(), 4);
    assert_eq!(writes[0], SinkWrite::End(Tag::Run));
    assert_eq!(
        writes[1],
        SinkWrite::Start {
            tag: Tag::Line,
            attributes: vec![
                attr("x", vec![Piece::Number(num(2.0))]),
                attr("y", vec![Piece::Position(own(1.0, 0.5))]),
            ],
        }
    );
    assert_eq!(writes[3], SinkWrite::End(Tag::Line));
}

#[test]
fn names_of_elements_and_axes() {
    assert_eq!(Tag::Run.name(), "text");
    assert_eq!(Tag::Line.name(), "tspan");
    assert_eq!(Axis::X.name(), "x");
    assert_eq!(Axis::Y.name(), "y");
    assert_eq!(WritingMode::Horizontal.advance_axis(), Axis::X);
    assert_eq!(WritingMode::Horizontal.cross_axis(), Axis::Y);
    assert_eq!(WritingMode::Vertical.advance_axis(), Axis::Y);
    assert_eq!(WritingMode::Vertical.cross_axis(), Axis::X);
}

#[test]
fn attributes_are_built_from_their_pieces() {
    assert_eq!(attribute("a", vec![text("b")]), attr("a", vec![text("b")]));
    assert_eq!(text_attribute("opacity", "0"), attr("opacity", vec![text("0")]));
    assert_eq!(transform_attribute(placement()), attr("transform", placement_pieces()));
    assert_eq!(
        size_attribute(num(9.5)),
        attr("font-size", vec![Piece::Number(num(9.5)), text("pt")])
    );
    assert_eq!(
        position_attribute(Axis::Y, num(4.0)),
        attr("y", vec![Piece::Number(num(4.0))])
    );
}

#[test]
fn positions_of_a_list_are_separated_by_single_spaces() {
    assert_eq!(list_attribute(Axis::X, &Vec::new()), attr("x", Vec::new()));
    assert_eq!(
        list_attribute(Axis::Y, &vec![own(1.0, 0.5)]),
        attr("y", vec![Piece::Position(own(1.0, 0.5))])
    );
    assert_eq!(
        list_attribute(Axis::X, &vec![own(1.0, 0.5), own(2.0, 0.5), own(3.0, 0.5)]),
        attr(
            "x",
            vec![
                Piece::Position(own(1.0, 0.5)),
                text(" "),
                Piece::Position(own(2.0, 0.5)),
                text(" "),
                Piece::Position(own(3.0, 0.5)),
            ]
        )
    );
}

#[test]
fn the_start_of_a_run_names_family_and_size() {
    let r = run("XYZABC+Courier-Oblique", 8.0, WritingMode::Horizontal, Vec::new());
    match run_element(&r) {
        SinkWrite::Start { tag, attributes } => {
            assert_eq!(tag, Tag::Run);
            assert_eq!(attributes.len(), 5);
            assert_eq!(attributes[2], attr("font-family", vec![text("Courier")]));
            assert_eq!(attributes[3], attr("font-size", vec![Piece::Number(num(8.0)), text("pt")]));
        }
        _ => panic!("a run starts with the start of its element"),
    }
}
