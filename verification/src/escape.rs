use vstd::prelude::*;

verus! {

/// The reference that stands for a reserved character in character data.
pub open spec fn reference_of(c: char) -> Option<Seq<char>> {
    if c == '<' {
        Some(seq!['&', 'l', 't', ';'])
    } else if c == '>' {
        Some(seq!['&', 'g', 't', ';'])
    } else if c == '&' {
        Some(seq!['&', 'a', 'm', 'p', ';'])
    } else if c == '\'' {
        Some(seq!['&', 'a', 'p', 'o', 's', ';'])
    } else if c == '"' {
        Some(seq!['&', 'q', 'u', 'o', 't', ';'])
    } else if c == '\r' {
        Some(seq!['&', '#', '1', '3', ';'])
    } else {
        None
    }
}

/// What stands for one character in escaped character data: its reference
/// where it has one, the character itself where it has none.
pub open spec fn escaped_char(c: char) -> Seq<char> {
    match reference_of(c) {
        Some(reference) => reference,
        None => seq![c],
    }
}

/// The escaped form of a text: the escaped forms of its characters, in order.
pub open spec fn escaped(text: Seq<char>) -> Seq<char>
    decreases text.len(),
{
    if text.len() == 0 {
        Seq::empty()
    } else {
        escaped_char(text[0]) + escaped(text.drop_first())
    }
}

/// Characters that never occur in escaped character data.
pub open spec fn reserved(c: char) -> bool {
    c == '<' || c == '>' || c == '\'' || c == '"' || c == '\r'
}

/// Escapes a text with `quick_xml::escape::escape`, which replaces `<`, `>`,
/// `&`, `'`, `"` and the carriage return by `&lt;`, `&gt;`, `&amp;`, `&apos;`,
/// `&quot;` and `&#13;`, and keeps every other character.
#[verifier::external_body]
pub(crate) fn escape_text(text: &Vec<char>) -> (out: String)
    ensures
        out@ == escaped(text@),
{
    let raw: String = text.iter().collect();
    quick_xml::escape::escape(raw.as_str()).into_owned()
}

/// Escaped text holds no reserved character.
pub proof fn lemma_escaped_has_no_reserved(text: Seq<char>)
    ensures
        forall|k: int| 0 <= k < escaped(text).len() ==> !reserved(#[trigger] escaped(text)[k]),
    decreases text.len(),
{
    if text.len() > 0 {
        lemma_escaped_has_no_reserved(text.drop_first());
        let head = escaped_char(text[0]);
        let rest = escaped(text.drop_first());
        assert forall|k: int| 0 <= k < escaped(text).len() implies !reserved(
            #[trigger] escaped(text)[k],
        ) by {
            if k < head.len() {
                assert(escaped(text)[k] == head[k]);
            } else {
                assert(escaped(text)[k] == rest[k - head.len()]);
            }
        }
    }
}

/// Whether `s` starts with the reference of `c`.
pub open spec fn begins_with_reference(s: Seq<char>, c: char) -> bool {
    let reference = escaped_char(c);
    reference.len() <= s.len() && forall|i: int|
        0 <= i < reference.len() ==> s[i] == reference[i]
}

/// The character whose reference `s` starts with, if it starts with one.
pub open spec fn leading_reference(s: Seq<char>) -> Option<char> {
    if begins_with_reference(s, '<') {
        Some('<')
    } else if begins_with_reference(s, '>') {
        Some('>')
    } else if begins_with_reference(s, '&') {
        Some('&')
    } else if begins_with_reference(s, '\'') {
        Some('\'')
    } else if begins_with_reference(s, '"') {
        Some('"')
    } else if begins_with_reference(s, '\r') {
        Some('\r')
    } else {
        None
    }
}

/// The text that escaped character data stands for: every reference is
/// replaced by its character, from left to right.
pub open spec fn unescaped(s: Seq<char>) -> Seq<char>
    decreases s.len(),
{
    if s.len() == 0 {
        Seq::empty()
    } else {
        match leading_reference(s) {
            Some(c) => seq![c] + unescaped(s.skip(escaped_char(c).len() as int)),
            None => seq![s[0]] + unescaped(s.skip(1)),
        }
    }
}

proof fn lemma_unescape_one(c: char, rest: Seq<char>)
    ensures
        unescaped(escaped_char(c) + rest) == seq![c] + unescaped(rest),
{
    let head = escaped_char(c);
    let s = head + rest;
    assert(s[0] == head[0]);
    assert(head.len() >= 4 ==> s[1] == head[1] && s[2] == head[2] && s[3] == head[3]);
    assert(head.len() >= 5 ==> s[4] == head[4]);
    assert(head.len() >= 6 ==> s[5] == head[5]);
    if reference_of(c).is_some() {
        assert(begins_with_reference(s, c));
        assert(leading_reference(s) == Some(c));
        assert(s.skip(head.len() as int) =~= rest);
    } else {
        assert(s[0] == c);
        assert(leading_reference(s).is_none());
        assert(s.skip(1) =~= rest);
    }
}

/// Decoding escaped text gives the text itself back, character for
/// character.
pub proof fn lemma_unescape_escaped(text: Seq<char>)
    ensures
        unescaped(escaped(text)) == text,
    decreases text.len(),
{
    if text.len() > 0 {
        lemma_unescape_escaped(text.drop_first());
        lemma_unescape_one(text[0], escaped(text.drop_first()));
        assert(seq![text[0]] + text.drop_first() =~= text);
    }
}

} // verus!
