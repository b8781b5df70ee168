use vstd::prelude::*;
use crate::scalar::Scalar;
use crate::line::{GlyphItem, GlyphMetric, LineModel, WritingMode, absorbed, extended, grouped, opened};

verus! {

/// The offset of one character along the advance axis: the position
/// `primary + width / parts * step`. The glyph's own character has step 0,
/// the characters that follow it the steps from 1 on.
#[derive(Clone, Copy, Debug, PartialEq, Eq, Structural)]
pub struct Offset {
    pub primary: Scalar,
    pub width: Scalar,
    pub step: usize,
    pub parts: usize,
}

/// The offsets of one glyph and of its followings, evenly spaced over the
/// glyph's advance width.
pub open spec fn spread(g: GlyphMetric) -> Seq<Offset> {
    Seq::new(
        (g.followings + 1) as nat,
        |i: int|
            Offset {
                primary: g.primary,
                width: g.width,
                step: i as usize,
                parts: (g.followings + 1) as usize,
            },
    )
}

/// The offsets of a line's glyphs, in order.
pub open spec fn offsets_of(glyphs: Seq<GlyphMetric>) -> Seq<Offset>
    decreases glyphs.len(),
{
    if glyphs.len() == 0 {
        Seq::empty()
    } else {
        offsets_of(glyphs.drop_last()) + spread(glyphs.last())
    }
}

/// A line with as many offsets as characters.
pub open spec fn balanced(line: LineModel) -> bool {
    offsets_of(line.glyphs).len() == line.text.len()
}

proof fn lemma_offsets_prefix(glyphs: Seq<GlyphMetric>, n: int)
    requires
        0 <= n <= glyphs.len(),
    ensures
        offsets_of(glyphs.take(n)).len() <= offsets_of(glyphs).len(),
    decreases glyphs.len(),
{
    if n == glyphs.len() {
        assert(glyphs.take(n) =~= glyphs);
    } else {
        lemma_offsets_prefix(glyphs.drop_last(), n);
        assert(glyphs.drop_last().take(n) =~= glyphs.take(n));
    }
}

/// Computes the offsets of a line's glyphs.
pub fn distribute(glyphs: &Vec<GlyphMetric>) -> (offsets: Vec<Offset>)
    requires
        offsets_of(glyphs@).len() <= usize::MAX,
    ensures
        offsets@ == offsets_of(glyphs@),
{
    let mut offsets: Vec<Offset> = Vec::new();
    let mut j: usize = 0;
    assert(glyphs@.take(0) =~= Seq::<GlyphMetric>::empty());
    while j < glyphs.len()
        invariant
            j <= glyphs.len(),
            offsets@ == offsets_of(glyphs@.take(j as int)),
            offsets_of(glyphs@).len() <= usize::MAX,
        decreases glyphs.len() - j,
    {
        let g = glyphs[j];
        proof {
            lemma_offsets_prefix(glyphs@, j + 1);
            assert(glyphs@.take(j + 1).drop_last() =~= glyphs@.take(j as int));
            assert(glyphs@.take(j + 1).last() == g);
        }
        let parts: usize = g.followings + 1;
        let ghost base = offsets@;
        let mut k: usize = 0;
        assert(spread(g).take(0) =~= Seq::<Offset>::empty());
        assert(base + spread(g).take(0) =~= base);
        while k < parts
            invariant
                k <= parts,
                parts == g.followings + 1,
                offsets@ == base + spread(g).take(k as int),
            decreases parts - k,
        {
            offsets.push(Offset { primary: g.primary, width: g.width, step: k, parts });
            assert(base + spread(g).take(k + 1) =~= (base + spread(g).take(k as int)).push(
                spread(g)[k as int],
            ));
            k += 1;
        }
        assert(spread(g).take(parts as int) =~= spread(g));
        j += 1;
    }
    assert(glyphs@.take(j as int) =~= glyphs@);
    offsets
}

proof fn lemma_extended_balanced(line: LineModel, item: GlyphItem, mode: WritingMode)
    requires
        balanced(line),
        line.text.len() < usize::MAX,
    ensures
        balanced(extended(line, item, mode)),
        extended(line, item, mode).text.len() == line.text.len() + 1,
        extended(line, item, mode).secondary == line.secondary,
{
    let next = extended(line, item, mode);
    if item.gid >= 0 || line.glyphs.len() == 0 {
        assert(next.glyphs.drop_last() =~= line.glyphs);
        assert(spread(item.anchor(mode)).len() == 1);
    } else {
        let last = line.glyphs.last();
        assert(next.glyphs.drop_last() =~= line.glyphs.drop_last());
        assert(offsets_of(line.glyphs).len() == offsets_of(line.glyphs.drop_last()).len()
            + spread(last).len());
        assert(last.followings + 1 <= line.text.len());
    }
}

/// Every line of a run has exactly one offset for each of its characters, and
/// holds at least one character.
pub proof fn lemma_lines_balanced(items: Seq<GlyphItem>, mode: WritingMode)
    requires
        items.len() <= usize::MAX,
    ensures
        forall|k: int|
            0 <= k < grouped(items, mode).len() ==> balanced(#[trigger] grouped(items, mode)[k])
                && 0 < grouped(items, mode)[k].text.len() <= items.len(),
    decreases items.len(),
{
    if items.len() > 0 {
        let before = grouped(items.drop_last(), mode);
        let item = items.last();
        lemma_lines_balanced(items.drop_last(), mode);
        let after = absorbed(before, item, mode);
        assert(after == grouped(items, mode));
        if item.has_char() {
            if before.len() > 0 && before.last().secondary.equals(item.secondary(mode)) {
                assert(balanced(before[before.len() - 1]));
                lemma_extended_balanced(before.last(), item, mode);
            } else {
                assert(offsets_of(opened(item, mode).glyphs).len() == 0);
                lemma_extended_balanced(opened(item, mode), item, mode);
            }
        }
        assert forall|k: int| 0 <= k < after.len() implies balanced(#[trigger] after[k]) && 0
            < after[k].text.len() <= items.len() by {
            if k < before.len() {
                assert(balanced(before[k]));
            }
        }
    }
}

/// Lines are split on every change of the cross-axis coordinate and only
/// there: two lines that follow each other never have equal coordinates,
/// while a coordinate may come back in a later line.
pub proof fn lemma_neighbours_differ(items: Seq<GlyphItem>, mode: WritingMode, k: int)
    requires
        0 < k < grouped(items, mode).len(),
    ensures
        !grouped(items, mode)[k - 1].secondary.equals(grouped(items, mode)[k].secondary),
    decreases items.len(),
{
    if items.len() > 0 {
        let before = grouped(items.drop_last(), mode);
        let item = items.last();
        if !item.has_char() {
            lemma_neighbours_differ(items.drop_last(), mode, k);
        } else if before.len() > 0 && before.last().secondary.equals(item.secondary(mode)) {
            lemma_neighbours_differ(items.drop_last(), mode, k);
        } else if k < before.len() {
            lemma_neighbours_differ(items.drop_last(), mode, k);
        }
    }
}

} // verus!
