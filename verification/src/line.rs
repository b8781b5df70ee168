use vstd::prelude::*;
use crate::scalar::Scalar;

verus! {

/// The direction in which a run advances.
#[derive(Clone, Copy, Debug, PartialEq, Eq, Structural)]
pub enum WritingMode {
    Horizontal,
    Vertical,
}

/// One shaped item of a run, placed in the run's local frame.
///
/// A negative `gid` means that no glyph of its own was drawn for the item, a
/// `ucs` that is no Unicode scalar value that it carries no character.
/// `advance` is the advance width that the font gave for the glyph, or `None`
/// where the font had none to give.
#[derive(Clone, Copy, Debug)]
pub struct GlyphItem {
    pub x: Scalar,
    pub y: Scalar,
    pub gid: i32,
    pub ucs: i32,
    pub advance: Option<Scalar>,
}

/// The place of one drawn glyph on its line: its advance width, its
/// coordinate along the advance axis, and how many characters without a glyph
/// of their own follow it.
#[derive(Clone, Copy, Debug, PartialEq, Eq, Structural)]
pub struct GlyphMetric {
    pub width: Scalar,
    pub primary: Scalar,
    pub followings: usize,
}

/// Consecutive characters of a run that share one cross-axis coordinate.
#[derive(Clone, Debug, PartialEq, Eq)]
pub struct Line {
    pub secondary: Scalar,
    pub glyphs: Vec<GlyphMetric>,
    pub text: Vec<char>,
}

/// The mathematical content of a [`Line`].
pub ghost struct LineModel {
    pub secondary: Scalar,
    pub glyphs: Seq<GlyphMetric>,
    pub text: Seq<char>,
}

impl View for Line {
    type V = LineModel;

    open spec fn view(&self) -> LineModel {
        LineModel { secondary: self.secondary, glyphs: self.glyphs@, text: self.text@ }
    }
}

/// The bit pattern of three tenths, the width of a glyph whose font gives none.
pub const FALLBACK_ADVANCE_BITS: u32 = 0x3e99_999a;

/// Whether a code is a Unicode scalar value.
pub open spec fn is_scalar_value(code: int) -> bool {
    0 <= code <= 0xD7FF || 0xE000 <= code <= 0x10FFFF
}

/// `char::from_u32` gives the character of a code that is a Unicode scalar
/// value, and nothing for any other code.
pub assume_specification[ char::from_u32 ](code: u32) -> (c: Option<char>)
    ensures
        c.is_some() == is_scalar_value(code as int),
        c.is_some() ==> c.unwrap() == code as char,
;

impl GlyphItem {
    /// Whether the item carries a character.
    pub open spec fn has_char(self) -> bool {
        is_scalar_value(self.ucs as int)
    }

    /// The character that the item carries.
    pub open spec fn character(self) -> char
        recommends
            self.has_char(),
    {
        self.ucs as u32 as char
    }

    /// The coordinate along which the run advances.
    pub open spec fn primary(self, mode: WritingMode) -> Scalar {
        match mode {
            WritingMode::Horizontal => self.x,
            WritingMode::Vertical => self.y,
        }
    }

    /// The coordinate across the advance direction.
    pub open spec fn secondary(self, mode: WritingMode) -> Scalar {
        match mode {
            WritingMode::Horizontal => self.y,
            WritingMode::Vertical => self.x,
        }
    }

    /// The metric of an item that anchors its own offset: a drawn glyph with
    /// its advance width, or the fallback width where the font gave none; an
    /// item without a glyph with no width at all.
    pub open spec fn anchor(self, mode: WritingMode) -> GlyphMetric {
        let width = if self.gid >= 0 {
            match self.advance {
                Some(w) => w,
                None => Scalar { bits: FALLBACK_ADVANCE_BITS },
            }
        } else {
            Scalar { bits: 0 }
        };
        GlyphMetric { width, primary: self.primary(mode), followings: 0 }
    }

    /// The character of the item, where it carries one.
    pub fn char_of(&self) -> (c: Option<char>)
        ensures
            c.is_some() == self.has_char(),
            c.is_some() ==> c.unwrap() == self.character(),
    {
        if self.ucs < 0 {
            None
        } else {
            char::from_u32(self.ucs as u32)
        }
    }

    /// The item's coordinates as (primary, secondary).
    pub fn axes(&self, mode: WritingMode) -> (r: (Scalar, Scalar))
        ensures
            r.0 == self.primary(mode),
            r.1 == self.secondary(mode),
    {
        match mode {
            WritingMode::Horizontal => (self.x, self.y),
            WritingMode::Vertical => (self.y, self.x),
        }
    }

    /// The metric with which the item anchors an offset.
    pub fn anchor_metric(&self, mode: WritingMode) -> (m: GlyphMetric)
        ensures
            m == self.anchor(mode),
    {
        let (primary, _) = self.axes(mode);
        let width = if self.gid >= 0 {
            match self.advance {
                Some(w) => w,
                None => Scalar { bits: FALLBACK_ADVANCE_BITS },
            }
        } else {
            Scalar { bits: 0 }
        };
        GlyphMetric { width, primary, followings: 0 }
    }
}

/// A metric with one more following character.
pub open spec fn followed(m: GlyphMetric) -> GlyphMetric {
    GlyphMetric { width: m.width, primary: m.primary, followings: (m.followings + 1) as usize }
}

/// A line after one more item that carries a character. An item with a glyph,
/// or the first item of the line, anchors an offset of its own; any other
/// counts as a following of the glyph before it.
pub open spec fn extended(line: LineModel, item: GlyphItem, mode: WritingMode) -> LineModel {
    let glyphs = if item.gid >= 0 || line.glyphs.len() == 0 {
        line.glyphs.push(item.anchor(mode))
    } else {
        line.glyphs.update(line.glyphs.len() - 1, followed(line.glyphs.last()))
    };
    LineModel { secondary: line.secondary, glyphs, text: line.text.push(item.character()) }
}

/// The line that an item opens, before the item itself is added.
pub open spec fn opened(item: GlyphItem, mode: WritingMode) -> LineModel {
    LineModel { secondary: item.secondary(mode), glyphs: Seq::empty(), text: Seq::empty() }
}

/// The lines after one more item. An item without a character changes
/// nothing. One whose cross-axis coordinate equals that of the last line joins
/// it. Any other opens a new line, also where an earlier line had the same
/// coordinate.
pub open spec fn absorbed(lines: Seq<LineModel>, item: GlyphItem, mode: WritingMode) -> Seq<
    LineModel,
> {
    if !item.has_char() {
        lines
    } else if lines.len() > 0 && lines.last().secondary.equals(item.secondary(mode)) {
        lines.update(lines.len() - 1, extended(lines.last(), item, mode))
    } else {
        lines.push(extended(opened(item, mode), item, mode))
    }
}

/// The lines of a run, in the order in which they are closed.
pub open spec fn grouped(items: Seq<GlyphItem>, mode: WritingMode) -> Seq<LineModel>
    decreases items.len(),
{
    if items.len() == 0 {
        Seq::empty()
    } else {
        absorbed(grouped(items.drop_last(), mode), items.last(), mode)
    }
}

/// The contents of a sequence of lines.
pub open spec fn lines_view(lines: Seq<Line>) -> Seq<LineModel> {
    lines.map_values(|l: Line| l@)
}

/// The characters that the items carry, in order.
pub open spec fn run_text(items: Seq<GlyphItem>) -> Seq<char>
    decreases items.len(),
{
    if items.len() == 0 {
        Seq::empty()
    } else if items.last().has_char() {
        run_text(items.drop_last()).push(items.last().character())
    } else {
        run_text(items.drop_last())
    }
}

/// The texts of the lines, one after the other.
pub open spec fn joined_text(lines: Seq<LineModel>) -> Seq<char>
    decreases lines.len(),
{
    if lines.len() == 0 {
        Seq::empty()
    } else {
        joined_text(lines.drop_last()) + lines.last().text
    }
}

/// Groups the items of a run into lines.
pub fn group_lines(items: &Vec<GlyphItem>, mode: WritingMode) -> (lines: Vec<Line>)
    ensures
        lines_view(lines@) == grouped(items@, mode),
{
    let mut lines: Vec<Line> = Vec::new();
    let mut open = false;
    let mut secondary = Scalar { bits: 0 };
    let mut glyphs: Vec<GlyphMetric> = Vec::new();
    let mut text: Vec<char> = Vec::new();
    let mut i: usize = 0;
    assert(items@.take(0) =~= Seq::<GlyphItem>::empty());
    assert(lines_view(lines@) =~= Seq::<LineModel>::empty());
    while i < items.len()
        invariant
            i <= items.len(),
            !open ==> lines@.len() == 0 && glyphs@.len() == 0 && text@.len() == 0 && grouped(
                items@.take(i as int),
                mode,
            ).len() == 0,
            open ==> lines_view(lines@).push(
                LineModel { secondary, glyphs: glyphs@, text: text@ },
            ) == grouped(items@.take(i as int), mode),
            forall|k: int| 0 <= k < glyphs@.len() ==> (#[trigger] glyphs@[k]).followings <= i,
        decreases items.len() - i,
    {
        let item = items[i];
        let ghost before = grouped(items@.take(i as int), mode);
        proof {
            assert(items@.take(i + 1).drop_last() =~= items@.take(i as int));
            assert(items@.take(i + 1).last() == item);
            assert(grouped(items@.take(i + 1), mode) == absorbed(before, item, mode));
        }
        match item.char_of() {
            None => {},
            Some(c) => {
                let (_, sec) = item.axes(mode);
                if !(open && secondary.same_value(sec)) {
                    if open {
                        lines.push(Line { secondary, glyphs, text });
                        glyphs = Vec::new();
                        text = Vec::new();
                        assert(lines_view(lines@) =~= before);
                    }
                    secondary = sec;
                    open = true;
                    assert(lines_view(lines@) =~= before);
                    if item.gid >= 0 || glyphs.len() == 0 {
                        glyphs.push(item.anchor_metric(mode));
                    }
                    text.push(c);
                    assert(glyphs@ =~= extended(opened(item, mode), item, mode).glyphs);
                    assert(text@ =~= extended(opened(item, mode), item, mode).text);
                } else {
                    let ghost current = LineModel { secondary, glyphs: glyphs@, text: text@ };
                    assert(before.last() == current);
                    assert(before.drop_last() =~= lines_view(lines@));
                    if item.gid >= 0 || glyphs.len() == 0 {
                        glyphs.push(item.anchor_metric(mode));
                    } else {
                        let end: usize = glyphs.len() - 1;
                        let last = glyphs[end];
                        glyphs.set(
                            end,
                            GlyphMetric {
                                width: last.width,
                                primary: last.primary,
                                followings: last.followings + 1,
                            },
                        );
                    }
                    text.push(c);
                    assert(glyphs@ =~= extended(current, item, mode).glyphs);
                    assert(lines_view(lines@).push(
                        LineModel { secondary, glyphs: glyphs@, text: text@ },
                    ) =~= before.update(before.len() - 1, extended(current, item, mode)));
                }
            },
        }
        i += 1;
    }
    assert(items@.take(i as int) =~= items@);
    if open {
        lines.push(Line { secondary, glyphs, text });
        assert(lines_view(lines@) =~= grouped(items@, mode));
    } else {
        assert(lines_view(lines@) =~= grouped(items@, mode));
    }
    lines
}

/// The lines hold the characters of the run, each once and in the order of
/// the run.
pub proof fn lemma_lines_keep_text(items: Seq<GlyphItem>, mode: WritingMode)
    ensures
        joined_text(grouped(items, mode)) == run_text(items),
    decreases items.len(),
{
    if items.len() > 0 {
        let before = grouped(items.drop_last(), mode);
        let item = items.last();
        lemma_lines_keep_text(items.drop_last(), mode);
        let after = absorbed(before, item, mode);
        if item.has_char() {
            if before.len() > 0 && before.last().secondary.equals(item.secondary(mode)) {
                assert(after.drop_last() =~= before.drop_last());
                assert(joined_text(after) =~= joined_text(before).push(item.character()));
            } else {
                assert(after.drop_last() =~= before);
                assert(after.last().text =~= seq![item.character()]);
                assert(joined_text(after) =~= joined_text(before).push(item.character()));
            }
        }
    }
}

} // verus!
