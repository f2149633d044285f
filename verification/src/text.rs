//! Text, character by character: trimming, lines, and searching.
//!
//! Every function works on Unicode scalar values, so a slice never falls inside a character.
use vstd::prelude::*;
use vstd::string::{StrSliceExecFns, StringExecFns};

verus! {

/// The text of an optional string.
pub open spec fn optional_text(s: Option<String>) -> Option<Seq<char>> {
    match s {
        Some(t) => Some(t@),
        None => None,
    }
}

/// The characters with the Unicode `White_Space` property.
pub open spec fn is_white_space(c: char) -> bool {
    ||| '\u{9}' <= c <= '\u{d}'
    ||| c == '\u{20}'
    ||| c == '\u{85}'
    ||| c == '\u{a0}'
    ||| c == '\u{1680}'
    ||| '\u{2000}' <= c <= '\u{200a}'
    ||| c == '\u{2028}'
    ||| c == '\u{2029}'
    ||| c == '\u{202f}'
    ||| c == '\u{205f}'
    ||| c == '\u{3000}'
}

/// What a trim takes off the ends of a text.
#[derive(Clone, Copy, Debug)]
pub enum Edge {
    /// White space.
    Blank,
    /// Double quotes.
    Quote,
}

/// Whether a trim of the given kind takes off this character.
pub open spec fn at_edge(edge: Edge, c: char) -> bool {
    match edge {
        Edge::Blank => is_white_space(c),
        Edge::Quote => c == '"',
    }
}

/// `s` without its leading edge characters.
pub open spec fn trimmed_start(s: Seq<char>, edge: Edge) -> Seq<char>
    decreases s.len(),
{
    if s.len() > 0 && at_edge(edge, s[0]) {
        trimmed_start(s.drop_first(), edge)
    } else {
        s
    }
}

/// `s` without its trailing edge characters.
pub open spec fn trimmed_end(s: Seq<char>, edge: Edge) -> Seq<char>
    decreases s.len(),
{
    if s.len() > 0 && at_edge(edge, s.last()) {
        trimmed_end(s.drop_last(), edge)
    } else {
        s
    }
}

/// `s` without edge characters at either end.
pub open spec fn trimmed(s: Seq<char>, edge: Edge) -> Seq<char> {
    trimmed_end(trimmed_start(s, edge), edge)
}

/// The position of the first `c` in `s`, or the length of `s` where there is none.
pub open spec fn find(s: Seq<char>, c: char) -> int
    decreases s.len(),
{
    if s.len() == 0 || s[0] == c {
        0
    } else {
        1 + find(s.drop_first(), c)
    }
}

/// A line that a line feed ended, without the carriage return before that line feed.
pub open spec fn without_return(s: Seq<char>) -> Seq<char> {
    if s.len() > 0 && s.last() == '\r' {
        s.drop_last()
    } else {
        s
    }
}

/// The lines of a text. A line ends at a line feed, which may follow a carriage return; neither
/// belongs to the line. The last line need not be ended.
pub open spec fn lines_of(s: Seq<char>) -> Seq<Seq<char>>
    decreases s.len(),
    via lines_of_shrinks
{
    let end = find(s, '\n');
    if s.len() == 0 {
        Seq::empty()
    } else if end < s.len() {
        seq![without_return(s.take(end))] + lines_of(s.skip(end + 1))
    } else {
        seq![s]
    }
}

#[via_fn]
proof fn lines_of_shrinks(s: Seq<char>) {
    lemma_find(s, '\n');
}

/// `find` gives the least position that holds the character.
pub proof fn lemma_find(s: Seq<char>, c: char)
    ensures
        0 <= find(s, c) <= s.len(),
        find(s, c) < s.len() ==> s[find(s, c)] == c,
        forall|i: int| 0 <= i < find(s, c) ==> s[i] != c,
    decreases s.len(),
{
    if s.len() > 0 && s[0] != c {
        lemma_find(s.drop_first(), c);
        assert forall|i: int| 0 <= i < find(s, c) implies s[i] != c by {
            if i > 0 {
                assert(s[i] == s.drop_first()[i - 1]);
            }
        }
    }
}

/// The position that `find` gives is the only one with no earlier match.
pub proof fn lemma_find_is(s: Seq<char>, c: char, k: int)
    requires
        0 <= k <= s.len(),
        k < s.len() ==> s[k] == c,
        forall|i: int| 0 <= i < k ==> s[i] != c,
    ensures
        find(s, c) == k,
{
    lemma_find(s, c);
}

/// The characters of a string.
pub fn chars_of(s: &str) -> (v: Vec<char>)
    ensures
        v@ == s@,
{
    let mut v: Vec<char> = Vec::new();
    for c in it: s.chars()
        invariant
            v@ == it.seq().take(it.index()),
            it.seq() == s@,
    {
        v.push(c);
    }
    v
}

/// Whether a character has the Unicode `White_Space` property.
pub fn white_space(c: char) -> (r: bool)
    ensures
        r == is_white_space(c),
{
    ('\u{9}' <= c && c <= '\u{d}') || c == '\u{20}' || c == '\u{85}' || c == '\u{a0}' || c
        == '\u{1680}' || ('\u{2000}' <= c && c <= '\u{200a}') || c == '\u{2028}' || c == '\u{2029}'
        || c == '\u{202f}' || c == '\u{205f}' || c == '\u{3000}'
}

fn edge_holds(edge: Edge, c: char) -> (r: bool)
    ensures
        r == at_edge(edge, c),
{
    match edge {
        Edge::Blank => white_space(c),
        Edge::Quote => c == '"',
    }
}

/// `s` without edge characters at either end.
pub fn trim(s: &str, edge: Edge) -> (r: &str)
    ensures
        r@ == trimmed(s@, edge),
{
    let cs = chars_of(s);
    let mut from: usize = 0;
    let mut to: usize = cs.len();
    assert(cs@.skip(0) =~= cs@);
    while from < to && edge_holds(edge, cs[from])
        invariant
            from <= to == cs.len(),
            trimmed_start(cs@, edge) == trimmed_start(cs@.skip(from as int), edge),
        decreases to - from,
    {
        assert(cs@.skip(from as int).drop_first() =~= cs@.skip(from + 1));
        from = from + 1;
    }
    let ghost rest = cs@.skip(from as int);
    assert(trimmed_start(cs@, edge) == rest);
    assert(rest.take(to - from) =~= rest);
    while from < to && edge_holds(edge, cs[to - 1])
        invariant
            from <= to <= cs.len(),
            rest == cs@.skip(from as int),
            trimmed_end(rest, edge) == trimmed_end(rest.take(to - from), edge),
        decreases to - from,
    {
        assert(rest.take(to - from).drop_last() =~= rest.take(to - 1 - from));
        to = to - 1;
    }
    assert(rest.take(to - from) =~= s@.subrange(from as int, to as int));
    s.substring_char(from, to)
}

/// The lines of a text, without their endings.
pub fn lines(text: &str) -> (r: Vec<&str>)
    ensures
        r@.map_values(|l: &str| l@) =~= lines_of(text@),
{
    let cs = chars_of(text);
    let mut r: Vec<&str> = Vec::new();
    let mut from: usize = 0;
    assert(cs@.skip(0) =~= cs@);
    while from < cs.len()
        invariant
            from <= cs.len(),
            cs@ == text@,
            r@.map_values(|l: &str| l@) + lines_of(cs@.skip(from as int)) =~= lines_of(cs@),
        decreases cs.len() - from,
    {
        let ghost rest = cs@.skip(from as int);
        let mut to: usize = from;
        while to < cs.len() && cs[to] != '\n'
            invariant
                from <= to <= cs.len(),
                forall|i: int| from <= i < to ==> cs@[i] != '\n',
            decreases cs.len() - to,
        {
            to = to + 1;
        }
        proof {
            assert forall|i: int| 0 <= i < to - from implies rest[i] != '\n' by {
                assert(rest[i] == cs@[from + i]);
            }
            lemma_find_is(rest, '\n', to - from);
        }
        if to < cs.len() {
            let end: usize = if from < to && cs[to - 1] == '\r' { to - 1 } else { to };
            let line = text.substring_char(from, end);
            assert(line@ =~= without_return(rest.take(to - from)));
            let ghost before = r@.map_values(|l: &str| l@);
            r.push(line);
            assert(r@.map_values(|l: &str| l@) =~= before.push(line@));
            assert(rest.skip(to - from + 1) =~= cs@.skip(to + 1));
            from = to + 1;
        } else {
            let line = text.substring_char(from, to);
            assert(line@ =~= rest);
            let ghost before = r@.map_values(|l: &str| l@);
            r.push(line);
            assert(r@.map_values(|l: &str| l@) =~= before.push(line@));
            from = to;
            assert(cs@.skip(from as int) =~= Seq::<char>::empty());
        }
    }
    assert(cs@.skip(from as int) =~= Seq::<char>::empty());
    r
}

/// The place of a text relative to another one.
#[derive(Clone, Copy, Debug, PartialEq, Eq, Structural)]
pub enum Place {
    Before,
    Same,
    After,
}

/// Whether `a` comes before `b` in the order of code points, which is also the order of the
/// UTF-8 bytes.
pub open spec fn comes_before(a: Seq<char>, b: Seq<char>) -> bool
    decreases a.len(),
{
    if a.len() == 0 {
        b.len() > 0
    } else if b.len() == 0 {
        false
    } else if a[0] == b[0] {
        comes_before(a.drop_first(), b.drop_first())
    } else {
        a[0] < b[0]
    }
}

/// No text comes before itself.
pub proof fn lemma_comes_before_irreflexive(a: Seq<char>)
    ensures
        !comes_before(a, a),
    decreases a.len(),
{
    if a.len() > 0 {
        lemma_comes_before_irreflexive(a.drop_first());
    }
}

/// The order is transitive.
pub proof fn lemma_comes_before_transitive(a: Seq<char>, b: Seq<char>, c: Seq<char>)
    requires
        comes_before(a, b),
        comes_before(b, c),
    ensures
        comes_before(a, c),
    decreases a.len(),
{
    if a.len() > 0 && a[0] == b[0] && b[0] == c[0] {
        lemma_comes_before_transitive(a.drop_first(), b.drop_first(), c.drop_first());
    }
}

/// A common first part does not matter to the order.
proof fn lemma_comes_before_after_prefix(a: Seq<char>, b: Seq<char>, k: int)
    requires
        0 <= k <= a.len(),
        k <= b.len(),
        a.take(k) == b.take(k),
    ensures
        comes_before(a, b) == comes_before(a.skip(k), b.skip(k)),
    decreases k,
{
    if k > 0 {
        assert(a[0] == a.take(k)[0] && b[0] == b.take(k)[0]);
        assert(a.drop_first().take(k - 1) =~= a.take(k).drop_first());
        assert(b.drop_first().take(k - 1) =~= b.take(k).drop_first());
        lemma_comes_before_after_prefix(a.drop_first(), b.drop_first(), k - 1);
        assert(a.drop_first().skip(k - 1) =~= a.skip(k));
        assert(b.drop_first().skip(k - 1) =~= b.skip(k));
    } else {
        assert(a.skip(0) =~= a && b.skip(0) =~= b);
    }
}

/// Where `a` stands relative to `b`.
pub fn place(a: &str, b: &str) -> (r: Place)
    ensures
        r == Place::Before <==> comes_before(a@, b@),
        r == Place::Same <==> a@ == b@,
        r == Place::After <==> comes_before(b@, a@),
{
    let x = chars_of(a);
    let y = chars_of(b);
    let mut i: usize = 0;
    while i < x.len() && i < y.len() && x[i] == y[i]
        invariant
            i <= x.len(),
            i <= y.len(),
            x@.take(i as int) =~= y@.take(i as int),
        decreases x.len() - i,
    {
        i = i + 1;
    }
    proof {
        lemma_comes_before_after_prefix(x@, y@, i as int);
        lemma_comes_before_after_prefix(y@, x@, i as int);
        if i < x.len() && i < y.len() {
            assert(x@.skip(i as int)[0] == x@[i as int] && y@.skip(i as int)[0] == y@[i as int]);
        } else if i == x.len() && i == y.len() {
            assert(x@ =~= x@.take(i as int) && y@ =~= y@.take(i as int));
            lemma_comes_before_irreflexive(x@);
        }
    }
    if i < x.len() && i < y.len() {
        if x[i] < y[i] {
            Place::Before
        } else {
            Place::After
        }
    } else if i < y.len() {
        Place::Before
    } else if i < x.len() {
        Place::After
    } else {
        Place::Same
    }
}

/// Whether two texts are equal.
pub fn same(a: &str, b: &str) -> (r: bool)
    ensures
        r == (a@ == b@),
{
    place(a, b) == Place::Same
}

/// Whether `s` starts with `prefix`.
pub open spec fn has_prefix(s: Seq<char>, prefix: Seq<char>) -> bool {
    prefix.len() <= s.len() && s.take(prefix.len() as int) == prefix
}

/// What follows `prefix` in `s`, where `s` starts with it.
pub fn strip_prefix<'a>(s: &'a str, prefix: &str) -> (r: Option<&'a str>)
    ensures
        r is Some <==> has_prefix(s@, prefix@),
        r matches Some(rest) ==> rest@ == s@.skip(prefix@.len() as int),
{
    let cs = chars_of(s);
    let ps = chars_of(prefix);
    let mut i: usize = 0;
    while i < ps.len()
        invariant
            i <= ps.len(),
            i <= cs.len(),
            cs@ == s@,
            ps@ == prefix@,
            forall|k: int| 0 <= k < i ==> cs@[k] == ps@[k],
        decreases ps.len() - i,
    {
        if i >= cs.len() || cs[i] != ps[i] {
            proof {
                if has_prefix(s@, prefix@) {
                    assert(s@.take(prefix@.len() as int)[i as int] == prefix@[i as int]);
                }
            }
            return None;
        }
        i = i + 1;
    }
    assert(s@.take(prefix@.len() as int) =~= prefix@);
    Some(s.substring_char(i, cs.len()))
}

/// Whether the first character of `s` is `c`.
pub fn starts_with(s: &str, c: char) -> (r: bool)
    ensures
        r == (s@.len() > 0 && s@[0] == c),
{
    let cs = chars_of(s);
    cs.len() > 0 && cs[0] == c
}

/// Whether the last character of `s` is `c`.
pub fn ends_with(s: &str, c: char) -> (r: bool)
    ensures
        r == (s@.len() > 0 && s@.last() == c),
{
    let cs = chars_of(s);
    cs.len() > 0 && cs[cs.len() - 1] == c
}

/// The parts of `s` before and after its first `c`.
pub fn split_once(s: &str, c: char) -> (r: Option<(&str, &str)>)
    ensures
        r is Some <==> find(s@, c) < s@.len(),
        r matches Some((a, b)) ==> {
            &&& a@ == s@.take(find(s@, c))
            &&& b@ == s@.skip(find(s@, c) + 1)
        },
{
    let cs = chars_of(s);
    let mut i: usize = 0;
    while i < cs.len() && cs[i] != c
        invariant
            i <= cs.len(),
            cs@ == s@,
            forall|k: int| 0 <= k < i ==> cs@[k] != c,
        decreases cs.len() - i,
    {
        i = i + 1;
    }
    proof {
        lemma_find_is(s@, c, i as int);
    }
    if i < cs.len() {
        let a = s.substring_char(0, i);
        let b = s.substring_char(i + 1, cs.len());
        assert(a@ =~= s@.take(i as int));
        assert(b@ =~= s@.skip(i + 1));
        Some((a, b))
    } else {
        None
    }
}

/// Where `pattern` first occurs in `s`.
pub open spec fn find_text(s: Seq<char>, pattern: Seq<char>) -> Option<int>
    decreases s.len(),
{
    if has_prefix(s, pattern) {
        Some(0)
    } else if s.len() == 0 {
        None
    } else {
        match find_text(s.drop_first(), pattern) {
            Some(i) => Some(i + 1),
            None => None,
        }
    }
}

/// The parts of `s` before and after the first occurrence of `pattern`.
pub fn split_text<'a>(s: &'a str, pattern: &str) -> (r: Option<(&'a str, &'a str)>)
    ensures
        r is Some <==> find_text(s@, pattern@) is Some,
        r matches Some((a, b)) ==> {
            let i = find_text(s@, pattern@)->0;
            &&& a@ == s@.take(i)
            &&& b@ == s@.skip(i + pattern@.len())
        },
{
    let cs = chars_of(s);
    let mut i: usize = 0;
    assert(s@.skip(0) =~= s@);
    loop
        invariant
            i <= cs.len(),
            cs@ == s@,
            find_text(s@, pattern@) == (match find_text(s@.skip(i as int), pattern@) {
                Some(j) => Some(j + i),
                None => None,
            }),
        decreases cs.len() - i,
    {
        let rest = s.substring_char(i, cs.len());
        assert(rest@ =~= s@.skip(i as int));
        if let Some(after) = strip_prefix(rest, pattern) {
            let before = s.substring_char(0, i);
            assert(before@ =~= s@.take(i as int));
            assert(after@ =~= s@.skip(i + pattern@.len()));
            return Some((before, after));
        }
        if i == cs.len() {
            return None;
        }
        assert(s@.skip(i as int).drop_first() =~= s@.skip(i + 1));
        i = i + 1;
    }
}

/// `s` up to its first `c`.
pub fn until(s: &str, c: char) -> (r: &str)
    ensures
        r@ == s@.take(find(s@, c)),
{
    proof {
        lemma_find(s@, c);
    }
    match split_once(s, c) {
        Some((before, _)) => before,
        None => {
            assert(s@.take(find(s@, c)) =~= s@);
            s
        },
    }
}

/// An ASCII capital letter as a small one, any other character as it is.
pub open spec fn ascii_small(c: char) -> char {
    if 'A' <= c <= 'Z' {
        (c as u32 + 32) as char
    } else {
        c
    }
}

/// Whether two texts are equal up to the case of their ASCII letters.
pub open spec fn same_but_for_ascii_case(a: Seq<char>, b: Seq<char>) -> bool {
    &&& a.len() == b.len()
    &&& forall|i: int| 0 <= i < a.len() ==> ascii_small(#[trigger] a[i]) == ascii_small(b[i])
}

fn letter_same(a: char, b: char) -> (r: bool)
    ensures
        r == (ascii_small(a) == ascii_small(b)),
{
    let x: u32 = if 'A' <= a && a <= 'Z' { a as u32 + 32 } else { a as u32 };
    let y: u32 = if 'A' <= b && b <= 'Z' { b as u32 + 32 } else { b as u32 };
    assert(x == ascii_small(a) as u32);
    assert(y == ascii_small(b) as u32);
    x == y
}

/// Whether two texts are equal up to the case of their ASCII letters.
pub fn eq_ignore_ascii_case(a: &str, b: &str) -> (r: bool)
    ensures
        r == same_but_for_ascii_case(a@, b@),
{
    let x = chars_of(a);
    let y = chars_of(b);
    if x.len() != y.len() {
        return false;
    }
    let mut i: usize = 0;
    while i < x.len()
        invariant
            i <= x.len() == y.len(),
            x@ == a@,
            y@ == b@,
            forall|k: int| 0 <= k < i ==> ascii_small(#[trigger] a@[k]) == ascii_small(b@[k]),
        decreases x.len() - i,
    {
        if !letter_same(x[i], y[i]) {
            assert(ascii_small(a@[i as int]) != ascii_small(b@[i as int]));
            return false;
        }
        i = i + 1;
    }
    true
}

/// Three texts in a row.
pub fn joined(a: &str, b: &str, c: &str) -> (r: String)
    ensures
        r@ == a@ + b@ + c@,
{
    let mut r = a.to_owned();
    r.append(b);
    r.append(c);
    r
}

} // verus!
