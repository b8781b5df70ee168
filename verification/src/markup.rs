use vstd::prelude::*;
use vstd::string::*;
use crate::scalar::Scalar;
use crate::family::{family_of, font_family};
use crate::escape::{escape_text, escaped};
use crate::line::{GlyphItem, Line, LineModel, WritingMode, group_lines, grouped, lines_view};
use crate::offsets::{Offset, balanced, distribute, lemma_lines_balanced, offsets_of};

verus! {

/// The six coefficients of the transform that places a run's local frame on
/// the page.
#[derive(Clone, Copy, Debug, PartialEq, Eq, Structural)]
pub struct Placement {
    pub a: Scalar,
    pub b: Scalar,
    pub c: Scalar,
    pub d: Scalar,
    pub e: Scalar,
    pub f: Scalar,
}

/// A shaped run of text: one font, one placement, one writing mode.
#[derive(Clone, Debug)]
pub struct TextRun {
    pub font_name: String,
    pub font_size: Scalar,
    pub placement: Placement,
    pub mode: WritingMode,
    pub items: Vec<GlyphItem>,
}

/// Why a run has no text layer.
#[derive(Clone, Copy, Debug, PartialEq, Eq, Structural)]
pub enum RenderError {
    /// The font size of the run is zero, infinite or not a number, so the
    /// run has no local frame.
    InvalidTransform,
}

/// A coordinate axis of the local frame.
#[derive(Clone, Copy, Debug, PartialEq, Eq, Structural)]
pub enum Axis {
    X,
    Y,
}

/// The two elements of the text layer.
#[derive(Clone, Copy, Debug, PartialEq, Eq, Structural)]
pub enum Tag {
    /// The element of a whole run.
    Run,
    /// The element of one line of a run.
    Line,
}

/// One piece of an attribute's value. The value is its pieces written one
/// after the other, every number in decimal.
#[derive(Clone, Debug, PartialEq, Eq)]
pub enum Piece {
    /// Text, written as it is.
    Text(String),
    /// A number.
    Number(Scalar),
    /// The position that an offset stands for.
    Position(Offset),
}

/// The mathematical content of a [`Piece`].
pub ghost enum PieceModel {
    Text(Seq<char>),
    Number(Scalar),
    Position(Offset),
}

impl View for Piece {
    type V = PieceModel;

    open spec fn view(&self) -> PieceModel {
        match self {
            Piece::Text(text) => PieceModel::Text(text@),
            Piece::Number(n) => PieceModel::Number(*n),
            Piece::Position(offset) => PieceModel::Position(*offset),
        }
    }
}

/// The contents of a sequence of pieces.
pub open spec fn pieces_view(pieces: Seq<Piece>) -> Seq<PieceModel> {
    pieces.map_values(|p: Piece| p@)
}

/// One attribute of an element: its name and the pieces of its value.
#[derive(Clone, Debug, PartialEq, Eq)]
pub struct Attr {
    pub name: String,
    pub value: Vec<Piece>,
}

/// The mathematical content of an [`Attr`].
pub ghost struct AttrModel {
    pub name: Seq<char>,
    pub value: Seq<PieceModel>,
}

impl View for Attr {
    type V = AttrModel;

    open spec fn view(&self) -> AttrModel {
        AttrModel { name: self.name@, value: pieces_view(self.value@) }
    }
}

/// One write to the sink that receives the text layer.
#[derive(Clone, Debug, PartialEq, Eq)]
pub enum SinkWrite {
    /// The start of an element, with its attributes in order.
    Start { tag: Tag, attributes: Vec<Attr> },
    /// Character data, already escaped.
    Text(String),
    /// The end of an element.
    End(Tag),
}

/// The mathematical content of a [`SinkWrite`].
pub ghost enum SinkWriteModel {
    Start { tag: Tag, attributes: Seq<AttrModel> },
    Text(Seq<char>),
    End(Tag),
}

/// The contents of a sequence of attributes.
pub open spec fn attrs_view(attributes: Seq<Attr>) -> Seq<AttrModel> {
    attributes.map_values(|a: Attr| a@)
}

impl View for SinkWrite {
    type V = SinkWriteModel;

    open spec fn view(&self) -> SinkWriteModel {
        match self {
            SinkWrite::Start { tag, attributes } => SinkWriteModel::Start {
                tag: *tag,
                attributes: attrs_view(attributes@),
            },
            SinkWrite::Text(text) => SinkWriteModel::Text(text@),
            SinkWrite::End(tag) => SinkWriteModel::End(*tag),
        }
    }
}

/// The contents of a sequence of writes.
pub open spec fn writes_view(writes: Seq<SinkWrite>) -> Seq<SinkWriteModel> {
    writes.map_values(|w: SinkWrite| w@)
}

impl Axis {
    /// The name of the attribute that holds positions on this axis.
    pub open spec fn label(self) -> Seq<char> {
        match self {
            Axis::X => "x"@,
            Axis::Y => "y"@,
        }
    }

    pub fn name(self) -> (s: &'static str)
        ensures
            s@ == self.label(),
    {
        match self {
            Axis::X => "x",
            Axis::Y => "y",
        }
    }
}

impl Tag {
    /// The name of the element.
    pub open spec fn label(self) -> Seq<char> {
        match self {
            Tag::Run => "text"@,
            Tag::Line => "tspan"@,
        }
    }

    pub fn name(self) -> (s: &'static str)
        ensures
            s@ == self.label(),
    {
        match self {
            Tag::Run => "text",
            Tag::Line => "tspan",
        }
    }
}

impl WritingMode {
    /// The axis along which the run advances.
    pub open spec fn primary_axis(self) -> Axis {
        match self {
            WritingMode::Horizontal => Axis::X,
            WritingMode::Vertical => Axis::Y,
        }
    }

    /// The axis across the advance direction.
    pub open spec fn secondary_axis(self) -> Axis {
        match self {
            WritingMode::Horizontal => Axis::Y,
            WritingMode::Vertical => Axis::X,
        }
    }

    pub fn advance_axis(self) -> (axis: Axis)
        ensures
            axis == self.primary_axis(),
    {
        match self {
            WritingMode::Horizontal => Axis::X,
            WritingMode::Vertical => Axis::Y,
        }
    }

    pub fn cross_axis(self) -> (axis: Axis)
        ensures
            axis == self.secondary_axis(),
    {
        match self {
            WritingMode::Horizontal => Axis::Y,
            WritingMode::Vertical => Axis::X,
        }
    }
}

/// An attribute whose value is one text.
pub open spec fn text_attr(name: Seq<char>, value: Seq<char>) -> AttrModel {
    AttrModel { name, value: seq![PieceModel::Text(value)] }
}

/// The value of the transform attribute: the six coefficients in a `matrix`
/// form, separated by commas.
pub open spec fn transform_value(p: Placement) -> Seq<PieceModel> {
    seq![
        PieceModel::Text("matrix("@),
        PieceModel::Number(p.a),
        PieceModel::Text(","@),
        PieceModel::Number(p.b),
        PieceModel::Text(","@),
        PieceModel::Number(p.c),
        PieceModel::Text(","@),
        PieceModel::Number(p.d),
        PieceModel::Text(","@),
        PieceModel::Number(p.e),
        PieceModel::Text(","@),
        PieceModel::Number(p.f),
        PieceModel::Text(")"@),
    ]
}

/// The value of the font size attribute: the size with its unit, the point.
pub open spec fn size_value(size: Scalar) -> Seq<PieceModel> {
    seq![PieceModel::Number(size), PieceModel::Text("pt"@)]
}

/// The value of a position list: the positions, separated by single spaces.
pub open spec fn list_value(offsets: Seq<Offset>) -> Seq<PieceModel>
    decreases offsets.len(),
{
    if offsets.len() == 0 {
        Seq::empty()
    } else if offsets.len() == 1 {
        seq![PieceModel::Position(offsets[0])]
    } else {
        list_value(offsets.drop_last()) + seq![
            PieceModel::Text(" "@),
            PieceModel::Position(offsets.last()),
        ]
    }
}

/// Builds an attribute from its name and the pieces of its value.
pub fn attribute(name: &str, value: Vec<Piece>) -> (attr: Attr)
    ensures
        attr@ == (AttrModel { name: name@, value: pieces_view(value@) }),
{
    Attr { name: String::from_str(name), value }
}

/// Builds an attribute whose value is one text.
pub fn text_attribute(name: &str, value: &str) -> (attr: Attr)
    ensures
        attr@ == text_attr(name@, value@),
{
    let mut pieces: Vec<Piece> = Vec::new();
    pieces.push(Piece::Text(String::from_str(value)));
    assert(pieces_view(pieces@) =~= seq![PieceModel::Text(value@)]);
    attribute(name, pieces)
}

/// Builds the transform attribute of a run.
pub fn transform_attribute(p: Placement) -> (attr: Attr)
    ensures
        attr@ == (AttrModel { name: "transform"@, value: transform_value(p) }),
{
    let mut pieces: Vec<Piece> = Vec::new();
    pieces.push(Piece::Text(String::from_str("matrix(")));
    pieces.push(Piece::Number(p.a));
    pieces.push(Piece::Text(String::from_str(",")));
    pieces.push(Piece::Number(p.b));
    pieces.push(Piece::Text(String::from_str(",")));
    pieces.push(Piece::Number(p.c));
    pieces.push(Piece::Text(String::from_str(",")));
    pieces.push(Piece::Number(p.d));
    pieces.push(Piece::Text(String::from_str(",")));
    pieces.push(Piece::Number(p.e));
    pieces.push(Piece::Text(String::from_str(",")));
    pieces.push(Piece::Number(p.f));
    pieces.push(Piece::Text(String::from_str(")")));
    assert(pieces_view(pieces@) =~= transform_value(p));
    attribute("transform", pieces)
}

/// Builds the font size attribute of a run.
pub fn size_attribute(size: Scalar) -> (attr: Attr)
    ensures
        attr@ == (AttrModel { name: "font-size"@, value: size_value(size) }),
{
    let mut pieces: Vec<Piece> = Vec::new();
    pieces.push(Piece::Number(size));
    pieces.push(Piece::Text(String::from_str("pt")));
    assert(pieces_view(pieces@) =~= size_value(size));
    attribute("font-size", pieces)
}

/// Builds the attribute that holds a line's position across the advance
/// direction.
pub fn position_attribute(axis: Axis, value: Scalar) -> (attr: Attr)
    ensures
        attr@ == (AttrModel { name: axis.label(), value: seq![PieceModel::Number(value)] }),
{
    let mut pieces: Vec<Piece> = Vec::new();
    pieces.push(Piece::Number(value));
    assert(pieces_view(pieces@) =~= seq![PieceModel::Number(value)]);
    attribute(axis.name(), pieces)
}

/// Builds the attribute that holds the positions of a line's characters.
pub fn list_attribute(axis: Axis, offsets: &Vec<Offset>) -> (attr: Attr)
    ensures
        attr@ == (AttrModel { name: axis.label(), value: list_value(offsets@) }),
{
    let mut pieces: Vec<Piece> = Vec::new();
    let mut k: usize = 0;
    assert(offsets@.take(0) =~= Seq::<Offset>::empty());
    assert(pieces_view(pieces@) =~= list_value(offsets@.take(0)));
    while k < offsets.len()
        invariant
            k <= offsets.len(),
            pieces_view(pieces@) == list_value(offsets@.take(k as int)),
        decreases offsets.len() - k,
    {
        let ghost before = pieces_view(pieces@);
        proof {
            assert(offsets@.take(k + 1).drop_last() =~= offsets@.take(k as int));
            assert(offsets@.take(k + 1).last() == offsets@[k as int]);
        }
        if k > 0 {
            pieces.push(Piece::Text(String::from_str(" ")));
        }
        pieces.push(Piece::Position(offsets[k]));
        proof {
            if k > 0 {
                assert(pieces_view(pieces@) =~= before + seq![
                    PieceModel::Text(" "@),
                    PieceModel::Position(offsets@[k as int]),
                ]);
            } else {
                assert(pieces_view(pieces@) =~= seq![PieceModel::Position(offsets@[0])]);
            }
        }
        k += 1;
    }
    assert(offsets@.take(k as int) =~= offsets@);
    attribute(axis.name(), pieces)
}

/// A font size from which a local frame can be derived: finite and not zero.
pub open spec fn usable_size(size: Scalar) -> bool {
    size.finite() && !size.zero()
}

/// The attributes of a run's element, in order: white space is kept, the
/// placement, the font family, the font size, the writing mode of a vertical
/// run, and an opacity of zero, since the layer is never painted.
pub open spec fn run_attributes(
    font_name: Seq<char>,
    font_size: Scalar,
    placement: Placement,
    mode: WritingMode,
) -> Seq<AttrModel> {
    let head = seq![
        text_attr("xml:space"@, "preserve"@),
        AttrModel { name: "transform"@, value: transform_value(placement) },
        text_attr("font-family"@, family_of(font_name)),
        AttrModel { name: "font-size"@, value: size_value(font_size) },
    ];
    match mode {
        WritingMode::Horizontal => head.push(text_attr("opacity"@, "0"@)),
        WritingMode::Vertical => head.push(text_attr("writing-mode"@, "tb"@)).push(
            text_attr("opacity"@, "0"@),
        ),
    }
}

/// The attributes of a line's element: its position across the advance
/// direction, then the positions of its characters along it.
pub open spec fn line_attributes(line: LineModel, mode: WritingMode) -> Seq<AttrModel> {
    seq![
        AttrModel {
            name: mode.secondary_axis().label(),
            value: seq![PieceModel::Number(line.secondary)],
        },
        AttrModel {
            name: mode.primary_axis().label(),
            value: list_value(offsets_of(line.glyphs)),
        },
    ]
}

/// The writes of one line: its element with its attributes, its escaped
/// text, and the element's end.
pub open spec fn line_writes(line: LineModel, mode: WritingMode) -> Seq<SinkWriteModel> {
    seq![
        SinkWriteModel::Start { tag: Tag::Line, attributes: line_attributes(line, mode) },
        SinkWriteModel::Text(escaped(line.text)),
        SinkWriteModel::End(Tag::Line),
    ]
}

/// The writes of some lines, one line after the other.
pub open spec fn lines_writes(lines: Seq<LineModel>, mode: WritingMode) -> Seq<SinkWriteModel>
    decreases lines.len(),
{
    if lines.len() == 0 {
        Seq::empty()
    } else {
        lines_writes(lines.drop_last(), mode) + line_writes(lines.last(), mode)
    }
}

/// The text layer of a run. A run whose font size is not usable has none. A
/// run without a single character gives no write at all. Any other gives the
/// start of its element, the writes of its lines, and the element's end.
pub open spec fn rendered(
    font_name: Seq<char>,
    font_size: Scalar,
    placement: Placement,
    mode: WritingMode,
    items: Seq<GlyphItem>,
) -> Result<Seq<SinkWriteModel>, RenderError> {
    if !usable_size(font_size) {
        Err(RenderError::InvalidTransform)
    } else if grouped(items, mode).len() == 0 {
        Ok(Seq::empty())
    } else {
        Ok(
            seq![
                SinkWriteModel::Start {
                    tag: Tag::Run,
                    attributes: run_attributes(font_name, font_size, placement, mode),
                },
            ] + lines_writes(grouped(items, mode), mode) + seq![SinkWriteModel::End(Tag::Run)],
        )
    }
}

impl TextRun {
    /// The text layer of this run.
    pub open spec fn layer(&self) -> Result<Seq<SinkWriteModel>, RenderError> {
        rendered(self.font_name@, self.font_size, self.placement, self.mode, self.items@)
    }
}

/// Appends the writes of one closed line.
pub fn emit_line(line: &Line, mode: WritingMode, writes: &mut Vec<SinkWrite>)
    requires
        balanced(line@),
    ensures
        writes_view(final(writes)@) == writes_view(old(writes)@) + line_writes(line@, mode),
{
    let ghost before = writes_view(writes@);
    let characters: usize = line.text.len();
    assert(offsets_of(line.glyphs@).len() == characters);
    let offsets = distribute(&line.glyphs);
    let mut attributes: Vec<Attr> = Vec::new();
    attributes.push(position_attribute(mode.cross_axis(), line.secondary));
    attributes.push(list_attribute(mode.advance_axis(), &offsets));
    assert(attrs_view(attributes@) =~= line_attributes(line@, mode));
    writes.push(SinkWrite::Start { tag: Tag::Line, attributes });
    writes.push(SinkWrite::Text(escape_text(&line.text)));
    writes.push(SinkWrite::End(Tag::Line));
    assert(writes_view(writes@) =~= before + line_writes(line@, mode));
}

/// Builds the start of a run's element.
pub fn run_element(run: &TextRun) -> (start: SinkWrite)
    ensures
        start@ == (SinkWriteModel::Start {
            tag: Tag::Run,
            attributes: run_attributes(run.font_name@, run.font_size, run.placement, run.mode),
        }),
{
    let family = font_family(run.font_name.as_str());
    let mut attributes: Vec<Attr> = Vec::new();
    attributes.push(text_attribute("xml:space", "preserve"));
    attributes.push(transform_attribute(run.placement));
    attributes.push(text_attribute("font-family", family.as_str()));
    attributes.push(size_attribute(run.font_size));
    match run.mode {
        WritingMode::Horizontal => {},
        WritingMode::Vertical => {
            attributes.push(text_attribute("writing-mode", "tb"));
        },
    }
    attributes.push(text_attribute("opacity", "0"));
    assert(attrs_view(attributes@) =~= run_attributes(
        run.font_name@,
        run.font_size,
        run.placement,
        run.mode,
    ));
    SinkWrite::Start { tag: Tag::Run, attributes }
}

/// Renders the text layer of one run as the writes that the sink receives, in
/// order. A run whose font size is zero or not finite is refused, and nothing
/// is written for it.
pub fn render(run: &TextRun) -> (result: Result<Vec<SinkWrite>, RenderError>)
    ensures
        match result {
            Ok(writes) => run.layer() == Ok::<Seq<SinkWriteModel>, RenderError>(
                writes_view(writes@),
            ),
            Err(e) => run.layer() == Err::<Seq<SinkWriteModel>, RenderError>(e),
        },
        result.is_err() <==> run.font_size.zero() || !run.font_size.finite(),
{
    if run.font_size.is_zero() || !run.font_size.is_finite() {
        return Err(RenderError::InvalidTransform);
    }
    let lines = group_lines(&run.items, run.mode);
    let mut writes: Vec<SinkWrite> = Vec::new();
    if lines.len() == 0 {
        assert(writes_view(writes@) =~= Seq::<SinkWriteModel>::empty());
        return Ok(writes);
    }
    let ghost models = grouped(run.items@, run.mode);
    let count: usize = run.items.len();
    writes.push(run_element(run));
    let ghost head = writes_view(writes@);
    proof {
        lemma_lines_balanced(run.items@, run.mode);
        assert(models.take(0) =~= Seq::<LineModel>::empty());
        assert(head + lines_writes(models.take(0), run.mode) =~= head);
    }
    let mut k: usize = 0;
    while k < lines.len()
        invariant
            k <= lines.len(),
            lines_view(lines@) == models,
            forall|n: int| 0 <= n < models.len() ==> balanced(#[trigger] models[n]),
            writes_view(writes@) == head + lines_writes(models.take(k as int), run.mode),
        decreases lines.len() - k,
    {
        proof {
            assert(models[k as int] == lines@[k as int]@);
            assert(models.take(k + 1).drop_last() =~= models.take(k as int));
            assert(models.take(k + 1).last() == models[k as int]);
        }
        emit_line(&lines[k], run.mode, &mut writes);
        assert(writes_view(writes@) =~= head + lines_writes(models.take(k + 1), run.mode));
        k += 1;
    }
    writes.push(SinkWrite::End(Tag::Run));
    proof {
        assert(models.take(k as int) =~= models);
        assert(head =~= seq![
            SinkWriteModel::Start {
                tag: Tag::Run,
                attributes: run_attributes(
                    run.font_name@,
                    run.font_size,
                    run.placement,
                    run.mode,
                ),
            },
        ]);
        assert(writes_view(writes@) =~= head + lines_writes(models, run.mode) + seq![
            SinkWriteModel::End(Tag::Run),
        ]);
    }
    Ok(writes)
}

/// Two runs with the same contents have the same text layer: rendering is a
/// function of the run alone.
pub proof fn lemma_render_repeatable(first: TextRun, second: TextRun)
    requires
        first.font_name@ == second.font_name@,
        first.font_size == second.font_size,
        first.placement == second.placement,
        first.mode == second.mode,
        first.items@ == second.items@,
    ensures
        first.layer() == second.layer(),
{
}

/// A run without a usable font size has no text layer, whatever else it
/// holds; every other run has one.
pub proof fn lemma_unusable_size_refused(run: TextRun)
    ensures
        run.font_size.zero() ==> run.layer() == Err::<Seq<SinkWriteModel>, RenderError>(
            RenderError::InvalidTransform,
        ),
        usable_size(run.font_size) <==> run.layer().is_ok(),
{
}

/// The elements that are open after some writes, innermost last, given those
/// that were open before them. There is no such state where an end does not
/// close the innermost open element, or where text stands outside every
/// element.
pub open spec fn open_after(writes: Seq<SinkWriteModel>, open: Seq<Tag>) -> Option<Seq<Tag>>
    decreases writes.len(),
{
    if writes.len() == 0 {
        Some(open)
    } else {
        match open_after(writes.drop_last(), open) {
            None => None,
            Some(stack) => match writes.last() {
                SinkWriteModel::Start { tag, attributes } => Some(stack.push(tag)),
                SinkWriteModel::Text(_) => if stack.len() > 0 {
                    Some(stack)
                } else {
                    None
                },
                SinkWriteModel::End(tag) => if stack.len() > 0 && stack.last() == tag {
                    Some(stack.drop_last())
                } else {
                    None
                },
            },
        }
    }
}

/// Writes in which every element that is opened is closed once, in nesting
/// order, and none is left open.
pub open spec fn well_nested(writes: Seq<SinkWriteModel>) -> bool {
    open_after(writes, Seq::empty()) == Some(Seq::<Tag>::empty())
}

proof fn lemma_open_after_concat(
    first: Seq<SinkWriteModel>,
    second: Seq<SinkWriteModel>,
    open: Seq<Tag>,
)
    ensures
        open_after(first + second, open) == match open_after(first, open) {
            Some(stack) => open_after(second, stack),
            None => None::<Seq<Tag>>,
        },
    decreases second.len(),
{
    if second.len() == 0 {
        assert(first + second =~= first);
    } else {
        lemma_open_after_concat(first, second.drop_last(), open);
        assert((first + second).drop_last() =~= first + second.drop_last());
        assert((first + second).last() == second.last());
    }
}

proof fn lemma_line_nested(line: LineModel, mode: WritingMode, open: Seq<Tag>)
    ensures
        open_after(line_writes(line, mode), open) == Some(open),
{
    let all = line_writes(line, mode);
    let two = all.drop_last();
    let one = two.drop_last();
    assert(one.drop_last() =~= Seq::<SinkWriteModel>::empty());
    assert(open_after(one.drop_last(), open) == Some(open));
    assert(open_after(one, open) == Some(open.push(Tag::Line)));
    assert(open_after(two, open) == Some(open.push(Tag::Line)));
    assert(open.push(Tag::Line).drop_last() =~= open);
}

proof fn lemma_lines_nested(lines: Seq<LineModel>, mode: WritingMode, open: Seq<Tag>)
    ensures
        open_after(lines_writes(lines, mode), open) == Some(open),
    decreases lines.len(),
{
    if lines.len() > 0 {
        lemma_lines_nested(lines.drop_last(), mode, open);
        lemma_line_nested(lines.last(), mode, open);
        lemma_open_after_concat(
            lines_writes(lines.drop_last(), mode),
            line_writes(lines.last(), mode),
            open,
        );
    }
}

/// In the text layer of a run every element that is opened is closed exactly
/// once, in nesting order, and text stands only inside an element.
pub proof fn lemma_layer_well_nested(run: TextRun)
    requires
        run.layer().is_ok(),
    ensures
        well_nested(run.layer().unwrap()),
{
    let lines = grouped(run.items@, run.mode);
    if lines.len() > 0 {
        let none = Seq::<Tag>::empty();
        let start = seq![
            SinkWriteModel::Start {
                tag: Tag::Run,
                attributes: run_attributes(
                    run.font_name@,
                    run.font_size,
                    run.placement,
                    run.mode,
                ),
            },
        ];
        let end = seq![SinkWriteModel::End(Tag::Run)];
        let inside = seq![Tag::Run];
        assert(start.drop_last() =~= Seq::<SinkWriteModel>::empty());
        assert(open_after(start.drop_last(), none) == Some(none));
        assert(none.push(Tag::Run) =~= inside);
        assert(open_after(start, none) == Some(inside));
        lemma_lines_nested(lines, run.mode, inside);
        lemma_open_after_concat(start, lines_writes(lines, run.mode), none);
        assert(end.drop_last() =~= Seq::<SinkWriteModel>::empty());
        assert(open_after(end.drop_last(), inside) == Some(inside));
        assert(inside.drop_last() =~= none);
        assert(open_after(end, inside) == Some(none));
        lemma_open_after_concat(start + lines_writes(lines, run.mode), end, none);
    }
}

} // verus!
