//! What trimming, splitting and comparing texts come to.
use crate::text::{
    ascii_small, at_edge, comes_before, find_text, has_prefix, lemma_find_is, lines_of,
    same_but_for_ascii_case, trimmed, trimmed_end, trimmed_start, Edge,
};
use vstd::prelude::*;

verus! {

/// Whether a trim takes off every character of a text.
pub open spec fn all_edge(s: Seq<char>, edge: Edge) -> bool {
    forall|i: int| 0 <= i < s.len() ==> at_edge(edge, #[trigger] s[i])
}

proof fn lemma_trimmed_start(front: Seq<char>, rest: Seq<char>, edge: Edge)
    requires
        all_edge(front, edge),
    ensures
        trimmed_start(front + rest, edge) == trimmed_start(rest, edge),
    decreases front.len(),
{
    if front.len() == 0 {
        assert(front + rest =~= rest);
    } else {
        assert(at_edge(edge, front[0]));
        assert((front + rest).drop_first() =~= front.drop_first() + rest);
        assert forall|i: int| 0 <= i < front.drop_first().len() implies at_edge(
            edge,
            #[trigger] front.drop_first()[i],
        ) by {
            assert(front.drop_first()[i] == front[i + 1]);
        }
        lemma_trimmed_start(front.drop_first(), rest, edge);
    }
}

proof fn lemma_trimmed_end(rest: Seq<char>, back: Seq<char>, edge: Edge)
    requires
        all_edge(back, edge),
    ensures
        trimmed_end(rest + back, edge) == trimmed_end(rest, edge),
    decreases back.len(),
{
    if back.len() == 0 {
        assert(rest + back =~= rest);
    } else {
        assert(at_edge(edge, back[back.len() - 1]));
        assert((rest + back).drop_last() =~= rest + back.drop_last());
        assert forall|i: int| 0 <= i < back.drop_last().len() implies at_edge(
            edge,
            #[trigger] back.drop_last()[i],
        ) by {
            assert(back.drop_last()[i] == back[i]);
        }
        lemma_trimmed_end(rest, back.drop_last(), edge);
    }
}

/// A trim takes off all edge characters at both ends, and nothing else: what stands between them
/// stays, with all that is inside it.
pub proof fn law_trim_takes_off_the_ends(
    front: Seq<char>,
    mid: Seq<char>,
    back: Seq<char>,
    edge: Edge,
)
    requires
        all_edge(front, edge),
        all_edge(back, edge),
        mid.len() > 0 ==> !at_edge(edge, mid[0]) && !at_edge(edge, mid.last()),
    ensures
        trimmed(front + mid + back, edge) == mid,
{
    assert(front + mid + back =~= front + (mid + back));
    lemma_trimmed_start(front, mid + back, edge);
    if mid.len() > 0 {
        assert((mid + back)[0] == mid[0]);
        lemma_trimmed_end(mid, back, edge);
    } else {
        assert(mid + back =~= back + Seq::<char>::empty());
        lemma_trimmed_start(back, Seq::empty(), edge);
        assert(mid =~= Seq::empty());
    }
}

/// Of the ASCII characters a trim of blanks takes off the tab, the line feed, the vertical tab, the
/// form feed, the carriage return and the space, and no other; beyond ASCII it takes off the other
/// characters that Unicode counts as white space. A trim of quotes takes off the double quote and
/// no other character.
pub proof fn law_what_a_trim_takes_off(c: char)
    ensures
        c < '\u{80}' ==> (at_edge(Edge::Blank, c) <==> (c == '\t' || c == '\n' || c == '\u{b}' || c
            == '\u{c}' || c == '\r' || c == ' ')),
        c >= '\u{80}' ==> (at_edge(Edge::Blank, c) <==> (c == '\u{85}' || c == '\u{a0}' || c
            == '\u{1680}' || 0x2000 <= c as int <= 0x200a || c == '\u{2028}' || c == '\u{2029}' || c
            == '\u{202f}' || c == '\u{205f}' || c == '\u{3000}')),
        at_edge(Edge::Quote, c) <==> c == '"',
{
}

/// A line ends at its line feed, and what follows are the other lines. A carriage return before the
/// line feed belongs to the end of the line.
pub proof fn law_lines_end_at_line_feeds(line: Seq<char>, rest: Seq<char>)
    requires
        !line.contains('\n'),
    ensures
        lines_of(line + seq!['\n'] + rest) == seq![
            if line.len() > 0 && line.last() == '\r' {
                line.drop_last()
            } else {
                line
            },
        ] + lines_of(rest),
        line.len() == 0 ==> lines_of(line) == Seq::<Seq<char>>::empty(),
        line.len() > 0 ==> lines_of(line) == seq![line],
{
    let s = line + seq!['\n'] + rest;
    assert forall|i: int| 0 <= i < line.len() implies line[i] != '\n' && s[i] != '\n' by {
        assert(s[i] == line[i]);
        assert(line.contains(line[i]));
    }
    assert(s[line.len() as int] == '\n');
    lemma_find_is(s, '\n', line.len() as int);
    lemma_find_is(line, '\n', line.len() as int);
    assert(s.take(line.len() as int) =~= line);
    assert(s.skip(line.len() as int + 1) =~= rest);
}

/// A text comes before every longer one that it begins. Of two texts that differ somewhere, the one
/// with the smaller character at the first difference comes first. No text comes before itself.
pub proof fn law_order_of_texts(
    common: Seq<char>,
    x: char,
    y: char,
    a: Seq<char>,
    b: Seq<char>,
)
    requires
        x != y,
    ensures
        comes_before(common + seq![x] + a, common + seq![y] + b) <==> x < y,
        comes_before(common, common + seq![x] + a),
        !comes_before(common + seq![x] + a, common),
        !comes_before(common, common),
    decreases common.len(),
{
    let (s, t) = (common + seq![x] + a, common + seq![y] + b);
    if common.len() == 0 {
        assert(s[0] == x && t[0] == y);
    } else {
        law_order_of_texts(common.drop_first(), x, y, a, b);
        assert(s[0] == common[0] && t[0] == common[0]);
        assert(s.drop_first() =~= common.drop_first() + seq![x] + a);
        assert(t.drop_first() =~= common.drop_first() + seq![y] + b);
    }
}

/// A text begins with another exactly if it is that one with something after it.
pub proof fn law_what_a_text_begins_with(s: Seq<char>, prefix: Seq<char>, rest: Seq<char>)
    ensures
        has_prefix(prefix + rest, prefix),
        has_prefix(s, prefix) ==> s == prefix + s.skip(prefix.len() as int),
{
    assert((prefix + rest).take(prefix.len() as int) =~= prefix);
    if has_prefix(s, prefix) {
        assert(s =~= s.take(prefix.len() as int) + s.skip(prefix.len() as int));
    }
}

/// The place that is found is the first one where the pattern stands, and it is found wherever it
/// stands somewhere.
pub proof fn law_first_occurrence_is_found(s: Seq<char>, pattern: Seq<char>, k: int)
    ensures
        find_text(s, pattern) matches Some(i) ==> {
            &&& 0 <= i
            &&& i + pattern.len() <= s.len()
            &&& s.subrange(i, i + pattern.len()) == pattern
            &&& 0 <= k < i && k + pattern.len() <= s.len() ==> s.subrange(k, k + pattern.len())
                != pattern
        },
        0 <= k && k + pattern.len() <= s.len() && s.subrange(k, k + pattern.len()) == pattern
            ==> find_text(s, pattern) is Some,
    decreases s.len(),
{
    let n = pattern.len() as int;
    if n <= s.len() {
        assert(s.take(n) =~= s.subrange(0, n));
    }
    if !has_prefix(s, pattern) && s.len() > 0 {
        let rest = s.drop_first();
        law_first_occurrence_is_found(rest, pattern, k - 1);
        if k > 0 && k + n <= s.len() {
            assert(rest.subrange(k - 1, k - 1 + n) =~= s.subrange(k, k + n));
        }
        if let Some(i) = find_text(rest, pattern) {
            assert(rest.subrange(i, i + n) =~= s.subrange(i + 1, i + 1 + n));
        }
    }
}

/// Only the case of the letters from A to Z does not matter.
pub proof fn law_only_the_case_of_ascii_letters_is_ignored(a: char, b: char)
    ensures
        same_but_for_ascii_case(seq![a], seq![b]) <==> a == b || ('A' <= a <= 'Z' && b as int == a
            as int + 32) || ('A' <= b <= 'Z' && a as int == b as int + 32),
{
    let (s, t) = (seq![a], seq![b]);
    assert(s[0] == a && t[0] == b);
    assert(same_but_for_ascii_case(s, t) <==> ascii_small(a) == ascii_small(b));
}

/// Texts are the same up to case if their parts are.
pub proof fn law_case_is_ignored_character_by_character(
    a: Seq<char>,
    x: char,
    b: Seq<char>,
    y: char,
)
    ensures
        same_but_for_ascii_case(a.push(x), b.push(y)) <==> same_but_for_ascii_case(a, b)
            && same_but_for_ascii_case(seq![x], seq![y]),
        same_but_for_ascii_case(a, Seq::empty()) <==> a.len() == 0,
{
    let (s, t) = (a.push(x), b.push(y));
    assert(seq![x][0] == x && seq![y][0] == y);
    if same_but_for_ascii_case(s, t) {
        assert forall|i: int| 0 <= i < a.len() implies ascii_small(#[trigger] a[i]) == ascii_small(
            b[i],
        ) by {
            assert(s[i] == a[i] && t[i] == b[i]);
        }
        assert(s[a.len() as int] == x && t[b.len() as int] == y);
    }
    if same_but_for_ascii_case(a, b) && same_but_for_ascii_case(seq![x], seq![y]) {
        assert(ascii_small(seq![x][0]) == ascii_small(seq![y][0]));
        assert forall|i: int| 0 <= i < s.len() implies ascii_small(#[trigger] s[i]) == ascii_small(
            t[i],
        ) by {
            if i < a.len() {
                assert(ascii_small(a[i]) == ascii_small(b[i]));
            }
        }
    }
}

} // verus!
