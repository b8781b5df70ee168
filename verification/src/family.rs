use vstd::prelude::*;
use vstd::string::*;

verus! {

/// The first position at or after `from` where `s` holds `c`, or the length of
/// `s` where there is none.
pub open spec fn first_from(s: Seq<char>, c: char, from: int) -> int
    decreases s.len() - from,
{
    if from < 0 || from >= s.len() {
        s.len() as int
    } else if s[from] == c {
        from
    } else {
        first_from(s, c, from + 1)
    }
}

/// The last position before `until` where `s` holds `c`, or -1 where there is
/// none.
pub open spec fn last_before(s: Seq<char>, c: char, until: int) -> int
    decreases until,
{
    if until <= 0 || until > s.len() {
        -1
    } else if s[until - 1] == c {
        until - 1
    } else {
        last_before(s, c, until - 1)
    }
}

/// What follows the first `+` of a font name, or the whole name without one.
pub open spec fn without_subset_tag(name: Seq<char>) -> Seq<char> {
    let plus = first_from(name, '+', 0);
    if plus < name.len() {
        name.subrange(plus + 1, name.len() as int)
    } else {
        name
    }
}

/// What precedes the last `-` of a name, or the whole name without one.
pub open spec fn without_style_suffix(name: Seq<char>) -> Seq<char> {
    let dash = last_before(name, '-', name.len() as int);
    if dash >= 0 {
        name.subrange(0, dash)
    } else {
        name
    }
}

/// The family of a raw font name: the subset tag and its `+` are taken off the
/// front, then the style suffix and its `-` off the end.
pub open spec fn family_of(name: Seq<char>) -> Seq<char> {
    without_style_suffix(without_subset_tag(name))
}

/// `first_from` is a position of `c`, none lies between `from` and it, and
/// it is the length of `s` where `c` does not occur from `from` on.
pub proof fn lemma_first_from_bounds(s: Seq<char>, c: char, from: int)
    requires
        0 <= from <= s.len(),
    ensures
        from <= first_from(s, c, from) <= s.len(),
        first_from(s, c, from) < s.len() ==> s[first_from(s, c, from)] == c,
        forall|k: int| from <= k < first_from(s, c, from) ==> s[k] != c,
    decreases s.len() - from,
{
    if from < s.len() && s[from] != c {
        lemma_first_from_bounds(s, c, from + 1);
    }
}

/// `last_before` is a position of `c`, none lies between it and `until`, and
/// it is -1 where `c` does not occur before `until`.
pub proof fn lemma_last_before_bounds(s: Seq<char>, c: char, until: int)
    requires
        0 <= until <= s.len(),
    ensures
        -1 <= last_before(s, c, until) < until,
        last_before(s, c, until) >= 0 ==> s[last_before(s, c, until)] == c,
        forall|k: int| last_before(s, c, until) < k < until ==> s[k] != c,
    decreases until,
{
    if until > 0 && s[until - 1] != c {
        lemma_last_before_bounds(s, c, until - 1);
    }
}

/// A name that holds neither `+` nor `-` is its own family.
pub proof fn lemma_plain_name_unchanged(name: Seq<char>)
    requires
        forall|k: int| 0 <= k < name.len() ==> name[k] != '+' && name[k] != '-',
    ensures
        family_of(name) == name,
{
    lemma_first_from_bounds(name, '+', 0);
    lemma_last_before_bounds(name, '-', name.len() as int);
}

/// A name made of a subset tag, `+`, a family, `-` and a style has that
/// family, whatever the family holds, as long as the tag holds no `+` and the
/// style no `-`.
pub proof fn lemma_tagged_name(tag: Seq<char>, family: Seq<char>, style: Seq<char>)
    requires
        forall|k: int| 0 <= k < tag.len() ==> tag[k] != '+',
        forall|k: int| 0 <= k < style.len() ==> style[k] != '-',
    ensures
        family_of(tag + seq!['+'] + family + seq!['-'] + style) == family,
{
    let name = tag + seq!['+'] + family + seq!['-'] + style;
    lemma_first_from_bounds(name, '+', 0);
    let plus = first_from(name, '+', 0);
    assert(name[tag.len() as int] == '+');
    assert(plus == tag.len()) by {
        if plus < tag.len() {
            assert(name[plus] == tag[plus]);
        }
    }
    let tail = family + seq!['-'] + style;
    assert(without_subset_tag(name) =~= tail);
    lemma_last_before_bounds(tail, '-', tail.len() as int);
    let dash = last_before(tail, '-', tail.len() as int);
    assert(tail[family.len() as int] == '-');
    assert(dash == family.len()) by {
        if dash > family.len() {
            assert(tail[dash] == style[dash - family.len() - 1]);
        }
    }
    assert(tail.subrange(0, dash) =~= family);
}

/// Returns the family of a raw font name.
pub fn font_family(name: &str) -> (family: String)
    ensures
        family@ == family_of(name@),
{
    let len: usize = name.unicode_len();
    let mut plus: usize = 0;
    while plus < len && name.get_char(plus) != '+'
        invariant
            len == name@.len(),
            plus <= len,
            first_from(name@, '+', 0) == first_from(name@, '+', plus as int),
        decreases len - plus,
    {
        plus += 1;
    }
    let tail: &str = if plus < len {
        name.substring_char(plus + 1, len)
    } else {
        name
    };
    assert(tail@ == without_subset_tag(name@));
    let tail_len: usize = tail.unicode_len();
    let mut dash: usize = tail_len;
    while dash > 0 && tail.get_char(dash - 1) != '-'
        invariant
            tail_len == tail@.len(),
            dash <= tail_len,
            last_before(tail@, '-', tail_len as int) == last_before(tail@, '-', dash as int),
        decreases dash,
    {
        dash -= 1;
    }
    if dash > 0 {
        String::from_str(tail.substring_char(0, dash - 1))
    } else {
        String::from_str(tail)
    }
}

} // verus!
