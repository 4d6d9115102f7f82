//! Text as sequences of characters: whitespace, trimming, line splitting and
//! joining, each with a mathematical definition and an executable function
//! proved against it.

use vstd::prelude::*;

verus! {

/// The characters that carry the Unicode `White_Space` property.
pub open spec fn is_whitespace(c: char) -> bool {
    ||| ('\u{9}' <= c && c <= '\u{d}')
    ||| c == ' '
    ||| c == '\u{85}'
    ||| c == '\u{a0}'
    ||| c == '\u{1680}'
    ||| ('\u{2000}' <= c && c <= '\u{200a}')
    ||| c == '\u{2028}'
    ||| c == '\u{2029}'
    ||| c == '\u{202f}'
    ||| c == '\u{205f}'
    ||| c == '\u{3000}'
}

/// `s` without the whitespace at its end.
pub open spec fn trim_end(s: Seq<char>) -> Seq<char>
    decreases s.len(),
{
    if s.len() > 0 && is_whitespace(s.last()) {
        trim_end(s.drop_last())
    } else {
        s
    }
}

/// `s` without the whitespace at its start.
pub open spec fn trim_start(s: Seq<char>) -> Seq<char>
    decreases s.len(),
{
    if s.len() > 0 && is_whitespace(s[0]) {
        trim_start(s.drop_first())
    } else {
        s
    }
}

/// `s` without the whitespace at either end.
pub open spec fn trimmed(s: Seq<char>) -> Seq<char> {
    trim_start(trim_end(s))
}

/// The test that holds of the character `c` and of no other.
pub open spec fn is_char(c: char) -> spec_fn(char) -> bool {
    |x: char| x == c
}

/// The test that holds of the whitespace characters.
pub open spec fn any_whitespace() -> spec_fn(char) -> bool {
    |x: char| is_whitespace(x)
}

/// The test that holds of the texts that are not empty.
pub open spec fn nonempty() -> spec_fn(Seq<char>) -> bool {
    |w: Seq<char>| w.len() > 0
}

/// The position of the first character of `s` that passes the test, or the
/// length of `s` where none does.
pub open spec fn first_hit(s: Seq<char>, p: spec_fn(char) -> bool) -> nat
    decreases s.len(),
{
    if s.len() == 0 {
        0
    } else if p(s[0]) {
        0
    } else {
        1 + first_hit(s.drop_first(), p)
    }
}

/// The position of the first line feed in `s`, or the length of `s` where it
/// holds none.
pub open spec fn first_newline(s: Seq<char>) -> nat {
    first_hit(s, is_char('\n'))
}

/// The pieces of `s` between the characters that pass the test. There is always
/// at least one piece; two such characters side by side have an empty piece
/// between them.
pub open spec fn split_by(s: Seq<char>, p: spec_fn(char) -> bool) -> Seq<Seq<char>>
    decreases s.len(),
{
    let k = first_hit(s, p);
    if k >= s.len() {
        seq![s]
    } else {
        seq![s.take(k as int)] + split_by(s.skip(k as int + 1), p)
    }
}

/// The pieces of `s` between the occurrences of `c`.
pub open spec fn split_on(s: Seq<char>, c: char) -> Seq<Seq<char>> {
    split_by(s, is_char(c))
}

/// The words of `s`: the pieces between whitespace that are not empty.
pub open spec fn words_of(s: Seq<char>) -> Seq<Seq<char>> {
    split_by(s, any_whitespace()).filter(nonempty())
}

/// `s` with each `from` replaced by `to`.
pub open spec fn replaced(s: Seq<char>, from: char, to: char) -> Seq<char> {
    Seq::new(
        s.len(),
        |i: int|
            if s[i] == from {
                to
            } else {
                s[i]
            },
    )
}

/// `s` without the copies of `p` at its start, as many as there are.
pub open spec fn strip_leading(s: Seq<char>, p: Seq<char>) -> Seq<char>
    decreases s.len(),
{
    if p.len() > 0 && starts_with(s, p) {
        strip_leading(s.skip(p.len() as int), p)
    } else {
        s
    }
}

/// The line feed as a separator.
pub open spec fn newline() -> Seq<char> {
    seq!['\n']
}

/// `line` without one carriage return at its end.
pub open spec fn strip_cr(line: Seq<char>) -> Seq<char> {
    if line.len() > 0 && line.last() == '\r' {
        line.drop_last()
    } else {
        line
    }
}

/// The lines of `s`. A line ends at a line feed, or at a carriage return
/// directly followed by one; neither belongs to the line. The text after the
/// last line feed is a line of its own unless it is empty, and keeps a carriage
/// return at its end.
pub open spec fn lines_of(s: Seq<char>) -> Seq<Seq<char>>
    decreases s.len(),
{
    if s.len() == 0 {
        Seq::empty()
    } else {
        let k = first_newline(s);
        if k >= s.len() {
            seq![s]
        } else {
            seq![strip_cr(s.take(k as int))] + lines_of(s.skip(k as int + 1))
        }
    }
}

/// The parts in order, with `sep` between each two neighbours.
pub open spec fn joined(parts: Seq<Seq<char>>, sep: Seq<char>) -> Seq<char>
    decreases parts.len(),
{
    if parts.len() == 0 {
        Seq::empty()
    } else if parts.len() == 1 {
        parts[0]
    } else {
        joined(parts.drop_last(), sep) + sep + parts.last()
    }
}

/// `s` without the line feeds at its end.
pub open spec fn strip_newlines(s: Seq<char>) -> Seq<char>
    decreases s.len(),
{
    if s.len() > 0 && s.last() == '\n' {
        strip_newlines(s.drop_last())
    } else {
        s
    }
}

/// Whether `s` holds the character `c`.
pub open spec fn has_char(s: Seq<char>, c: char) -> bool {
    exists|i: int| 0 <= i < s.len() && s[i] == c
}

/// Whether `s` begins with `p`.
pub open spec fn starts_with(s: Seq<char>, p: Seq<char>) -> bool {
    p.len() <= s.len() && s.take(p.len() as int) == p
}

/// The views of the elements of `v`, in order.
pub open spec fn views(v: Seq<Vec<char>>) -> Seq<Seq<char>> {
    Seq::new(v.len(), |i: int| v[i]@)
}

/// The views of the elements of `v`, in order.
pub open spec fn string_views(v: Seq<String>) -> Seq<Seq<char>> {
    Seq::new(v.len(), |i: int| v[i]@)
}

/// No character before the first hit passes the test, and the character at
/// it does.
pub proof fn lemma_first_hit(s: Seq<char>, p: spec_fn(char) -> bool)
    ensures
        first_hit(s, p) <= s.len(),
        forall|j: int| 0 <= j < first_hit(s, p) ==> !p(s[j]),
        first_hit(s, p) < s.len() ==> p(s[first_hit(s, p) as int]),
    decreases s.len(),
{
    if s.len() > 0 && !p(s[0]) {
        let t = s.drop_first();
        lemma_first_hit(t, p);
        assert forall|j: int| 0 <= j < first_hit(s, p) implies !p(s[j]) by {
            if j > 0 {
                assert(s[j] == t[j - 1]);
            }
        }
        if first_hit(s, p) < s.len() {
            assert(s[first_hit(s, p) as int] == t[first_hit(t, p) as int]);
        }
    }
}

/// A position that no passing character precedes, and that holds one or is
/// the end of `s`, is the first hit.
pub proof fn lemma_first_hit_is(s: Seq<char>, p: spec_fn(char) -> bool, k: int)
    requires
        0 <= k <= s.len(),
        forall|j: int| 0 <= j < k ==> !p(s[j]),
        k < s.len() ==> p(s[k]),
    ensures
        first_hit(s, p) == k,
{
    lemma_first_hit(s, p);
    let f = first_hit(s, p) as int;
    if f < k {
        assert(p(s[f]));
    } else if f > k {
        assert(!p(s[k]));
    }
}

/// No line feed stands before the first one.
pub proof fn lemma_first_newline(s: Seq<char>)
    ensures
        0 <= first_newline(s) <= s.len(),
        forall|j: int| 0 <= j < first_newline(s) ==> s[j] != '\n',
        first_newline(s) < s.len() ==> s[first_newline(s) as int] == '\n',
{
    lemma_first_hit(s, is_char('\n'));
}

/// A position that no line feed precedes, and that holds one or is the end of
/// `s`, is the position of the first line feed.
pub proof fn lemma_first_newline_is(s: Seq<char>, k: int)
    requires
        0 <= k <= s.len(),
        forall|j: int| 0 <= j < k ==> s[j] != '\n',
        k < s.len() ==> s[k] == '\n',
    ensures
        first_newline(s) == k,
{
    lemma_first_hit_is(s, is_char('\n'), k);
}

/// Whitespace at the end of a text does not change what is left after trimming.
pub proof fn lemma_trimmed_push_whitespace(s: Seq<char>, c: char)
    requires
        is_whitespace(c),
    ensures
        trimmed(s.push(c)) == trimmed(s),
{
    assert(s.push(c).drop_last() == s);
}

/// Stripping the line feeds at the end leaves a prefix that ends in none, and
/// drops line feeds only.
pub proof fn lemma_strip_newlines(s: Seq<char>)
    ensures
        strip_newlines(s).len() <= s.len(),
        strip_newlines(s) == s.take(strip_newlines(s).len() as int),
        strip_newlines(s).len() > 0 ==> strip_newlines(s).last() != '\n',
        forall|j: int| strip_newlines(s).len() <= j < s.len() ==> s[j] == '\n',
    decreases s.len(),
{
    if s.len() > 0 && s.last() == '\n' {
        let t = s.drop_last();
        lemma_strip_newlines(t);
        let r = strip_newlines(t);
        assert(t.take(r.len() as int) == s.take(r.len() as int));
        assert forall|j: int| r.len() <= j < s.len() implies s[j] == '\n' by {
            if j < t.len() {
                assert(s[j] == t[j]);
            }
        }
    } else {
        assert(s.take(s.len() as int) == s);
    }
}

/// Joining one more part adds the separator and the part, but for the first.
pub proof fn lemma_joined_push(parts: Seq<Seq<char>>, sep: Seq<char>, part: Seq<char>)
    ensures
        joined(parts.push(part), sep) == if parts.len() == 0 {
            part
        } else {
            joined(parts, sep) + sep + part
        },
{
    assert(parts.push(part).drop_last() == parts);
}

/// Whether the character is whitespace.
pub fn whitespace(c: char) -> (r: bool)
    ensures
        r == is_whitespace(c),
{
    ('\u{9}' <= c && c <= '\u{d}') || c == ' ' || c == '\u{85}' || c == '\u{a0}' || c == '\u{1680}'
        || ('\u{2000}' <= c && c <= '\u{200a}') || c == '\u{2028}' || c == '\u{2029}' || c
        == '\u{202f}' || c == '\u{205f}' || c == '\u{3000}'
}

/// The characters of a string.
pub fn to_chars(s: &str) -> (v: Vec<char>)
    ensures
        v@ == s@,
{
    let mut v: Vec<char> = Vec::new();
    for c in it: s.chars()
        invariant
            v@ == it.seq().take(it.index() as int),
            it.seq() == s@,
    {
        v.push(c);
    }
    v
}

/// `String::push` appends one character to the string.
pub assume_specification[ String::push ](s: &mut String, c: char)
    ensures
        final(s)@ == old(s)@.push(c),
;

/// The string made of the characters of `v`.
pub fn to_string(v: &Vec<char>) -> (s: String)
    ensures
        s@ == v@,
{
    let mut s = String::new();
    let mut i: usize = 0;
    while i < v.len()
        invariant
            i <= v.len(),
            s@ == v@.take(i as int),
        decreases v.len() - i,
    {
        s.push(v[i]);
        i += 1;
    }
    s
}

/// The strings made of the elements of `v`.
pub fn to_strings(v: &Vec<Vec<char>>) -> (out: Vec<String>)
    ensures
        string_views(out@) == views(v@),
{
    let mut out: Vec<String> = Vec::new();
    let mut i: usize = 0;
    while i < v.len()
        invariant
            i <= v.len(),
            out.len() == i,
            forall|j: int| 0 <= j < i ==> out[j]@ == v[j]@,
        decreases v.len() - i,
    {
        out.push(to_string(&v[i]));
        i += 1;
    }
    assert(string_views(out@) =~= views(v@));
    out
}

/// The characters of `s` from position `from` up to, not including, `to`.
pub fn copy_range(s: &Vec<char>, from: usize, to: usize) -> (r: Vec<char>)
    requires
        from <= to <= s.len(),
    ensures
        r@ == s@.subrange(from as int, to as int),
{
    let mut r: Vec<char> = Vec::new();
    let mut i: usize = from;
    while i < to
        invariant
            from <= i <= to <= s.len(),
            r@ == s@.subrange(from as int, i as int),
        decreases to - i,
    {
        r.push(s[i]);
        i += 1;
    }
    r
}

/// Appends the characters of `tail` to `buf`.
pub fn append(buf: &mut Vec<char>, tail: &Vec<char>)
    ensures
        final(buf)@ == old(buf)@ + tail@,
{
    let mut i: usize = 0;
    while i < tail.len()
        invariant
            i <= tail.len(),
            buf@ == old(buf)@ + tail@.take(i as int),
        decreases tail.len() - i,
    {
        buf.push(tail[i]);
        i += 1;
    }
    assert(tail@.take(tail.len() as int) == tail@);
}

/// Whether the two texts hold the same characters.
pub fn same(a: &Vec<char>, b: &Vec<char>) -> (r: bool)
    ensures
        r == (a@ == b@),
{
    if a.len() != b.len() {
        return false;
    }
    let mut i: usize = 0;
    while i < a.len()
        invariant
            i <= a.len(),
            a.len() == b.len(),
            forall|j: int| 0 <= j < i ==> a[j] == b[j],
        decreases a.len() - i,
    {
        if a[i] != b[i] {
            return false;
        }
        i += 1;
    }
    assert(a@ =~= b@);
    true
}

/// `s` without the whitespace at either end.
pub fn trim(s: &Vec<char>) -> (r: Vec<char>)
    ensures
        r@ == trimmed(s@),
{
    let mut end: usize = s.len();
    assert(s@.take(end as int) == s@);
    while end > 0 && whitespace(s[end - 1])
        invariant
            end <= s.len(),
            trim_end(s@) == trim_end(s@.take(end as int)),
        decreases end,
    {
        assert(s@.take(end as int).drop_last() == s@.take(end - 1));
        end -= 1;
    }
    let mut start: usize = 0;
    assert(s@.subrange(0, end as int) == s@.take(end as int));
    while start < end && whitespace(s[start])
        invariant
            start <= end <= s.len(),
            trimmed(s@) == trim_start(s@.subrange(start as int, end as int)),
        decreases end - start,
    {
        assert(s@.subrange(start as int, end as int).drop_first() == s@.subrange(
            start + 1,
            end as int,
        ));
        start += 1;
    }
    copy_range(s, start, end)
}

/// The lines of `s`.
pub fn split_lines(s: &Vec<char>) -> (out: Vec<Vec<char>>)
    ensures
        views(out@) == lines_of(s@),
{
    let mut out: Vec<Vec<char>> = Vec::new();
    let mut start: usize = 0;
    let mut i: usize = 0;
    assert(s@.skip(0) == s@);
    assert(views(out@) + lines_of(s@) == lines_of(s@));
    while i < s.len()
        invariant
            start <= i <= s.len(),
            forall|j: int| start <= j < i ==> s[j] != '\n',
            lines_of(s@) == views(out@) + lines_of(s@.skip(start as int)),
        decreases s.len() - i,
    {
        if s[i] == '\n' {
            let mut end: usize = i;
            if end > start && s[end - 1] == '\r' {
                end -= 1;
            }
            let line = copy_range(s, start, end);
            proof {
                let rest = s@.skip(start as int);
                lemma_first_newline_is(rest, i - start);
                assert(rest.take(i - start) == s@.subrange(start as int, i as int));
                assert(line@ == strip_cr(rest.take(i - start)));
                assert(rest.skip(i - start + 1) == s@.skip(i + 1));
                assert(views(out@.push(line)) == views(out@) + seq![line@]);
            }
            out.push(line);
            start = i + 1;
        }
        i += 1;
    }
    if start < s.len() {
        let line = copy_range(s, start, s.len());
        proof {
            let rest = s@.skip(start as int);
            lemma_first_newline_is(rest, rest.len() as int);
            assert(line@ == rest);
            assert(views(out@.push(line)) == views(out@) + seq![line@]);
        }
        out.push(line);
    } else {
        assert(views(out@) + Seq::<Seq<char>>::empty() == views(out@));
    }
    out
}

/// The parts in order, with `sep` between each two neighbours.
pub fn join(parts: &Vec<Vec<char>>, sep: &Vec<char>) -> (r: Vec<char>)
    ensures
        r@ == joined(views(parts@), sep@),
{
    let mut r: Vec<char> = Vec::new();
    let mut i: usize = 0;
    assert(views(parts@).take(0) == Seq::<Seq<char>>::empty());
    while i < parts.len()
        invariant
            i <= parts.len(),
            r@ == joined(views(parts@).take(i as int), sep@),
        decreases parts.len() - i,
    {
        proof {
            lemma_joined_push(views(parts@).take(i as int), sep@, parts[i as int]@);
            assert(views(parts@).take(i as int).push(parts[i as int]@) == views(parts@).take(
                i + 1,
            ));
        }
        if i > 0 {
            append(&mut r, sep);
        }
        append(&mut r, &parts[i]);
        i += 1;
    }
    assert(views(parts@).take(parts.len() as int) == views(parts@));
    r
}

/// Removes the line feeds at the end of `buf`.
pub fn truncate_newlines(buf: &mut Vec<char>)
    ensures
        final(buf)@ == strip_newlines(old(buf)@),
{
    while buf.len() > 0 && buf[buf.len() - 1] == '\n'
        invariant
            strip_newlines(buf@) == strip_newlines(old(buf)@),
        decreases buf.len(),
    {
        proof {
            assert(buf@.drop_last() == buf@.take(buf.len() - 1));
        }
        buf.pop();
    }
}

/// The test that splits at `on`, or at whitespace where `on` is `None`.
pub open spec fn splitter(on: Option<char>) -> spec_fn(char) -> bool {
    match on {
        Some(c) => is_char(c),
        None => any_whitespace(),
    }
}

/// The pieces of `s` between the characters that `on` selects.
fn split_at_each(s: &Vec<char>, on: Option<char>) -> (out: Vec<Vec<char>>)
    ensures
        views(out@) == split_by(s@, splitter(on)),
{
    let ghost p = splitter(on);
    let mut out: Vec<Vec<char>> = Vec::new();
    let mut start: usize = 0;
    let mut i: usize = 0;
    assert(s@.skip(0) == s@);
    assert(views(out@) + split_by(s@, p) == split_by(s@, p));
    while i < s.len()
        invariant
            start <= i <= s.len(),
            p == splitter(on),
            forall|j: int| start <= j < i ==> !p(s[j]),
            split_by(s@, p) == views(out@) + split_by(s@.skip(start as int), p),
        decreases s.len() - i,
    {
        let hit = match on {
            Some(c) => s[i] == c,
            None => whitespace(s[i]),
        };
        if hit {
            let piece = copy_range(s, start, i);
            proof {
                let rest = s@.skip(start as int);
                lemma_first_hit_is(rest, p, i - start);
                assert(rest.take(i - start) == s@.subrange(start as int, i as int));
                assert(rest.skip(i - start + 1) == s@.skip(i + 1));
                assert(views(out@.push(piece)) == views(out@) + seq![piece@]);
            }
            out.push(piece);
            start = i + 1;
        }
        i += 1;
    }
    let piece = copy_range(s, start, s.len());
    proof {
        let rest = s@.skip(start as int);
        lemma_first_hit_is(rest, p, rest.len() as int);
        assert(piece@ == rest);
        assert(views(out@.push(piece)) == views(out@) + seq![piece@]);
    }
    out.push(piece);
    out
}

/// The pieces of `s` between the occurrences of `c`.
pub fn split(s: &Vec<char>, c: char) -> (out: Vec<Vec<char>>)
    ensures
        views(out@) == split_on(s@, c),
{
    split_at_each(s, Some(c))
}

/// The words of `s`: the pieces between whitespace that are not empty.
pub fn split_whitespace(s: &Vec<char>) -> (out: Vec<Vec<char>>)
    ensures
        views(out@) == words_of(s@),
{
    let pieces = split_at_each(s, None);
    let ghost all = views(pieces@);
    let mut out: Vec<Vec<char>> = Vec::new();
    let mut i: usize = 0;
    proof {
        reveal(Seq::filter);
        assert(all.take(0) =~= Seq::<Seq<char>>::empty());
        assert(views(out@) =~= all.take(0).filter(nonempty()));
    }
    while i < pieces.len()
        invariant
            i <= pieces.len(),
            all == views(pieces@),
            views(out@) == all.take(i as int).filter(nonempty()),
        decreases pieces.len() - i,
    {
        let ghost before = views(out@);
        proof {
            reveal(Seq::filter);
            assert(all.take(i + 1).drop_last() =~= all.take(i as int));
            assert(all.take(i + 1).last() == pieces[i as int]@);
        }
        if pieces[i].len() > 0 {
            let word = copy_range(&pieces[i], 0, pieces[i].len());
            assert(word@ == pieces[i as int]@) by {
                assert(pieces[i as int]@.subrange(0, pieces[i as int]@.len() as int)
                    == pieces[i as int]@);
            }
            out.push(word);
            assert(views(out@) =~= before.push(word@));
        }
        i += 1;
    }
    assert(all.take(pieces.len() as int) == all);
    out
}

/// Whether `s` holds the character `c`.
pub fn contains_char(s: &Vec<char>, c: char) -> (r: bool)
    ensures
        r == has_char(s@, c),
{
    let mut i: usize = 0;
    while i < s.len()
        invariant
            i <= s.len(),
            forall|j: int| 0 <= j < i ==> s[j] != c,
        decreases s.len() - i,
    {
        if s[i] == c {
            return true;
        }
        i += 1;
    }
    false
}

/// Whether `s` begins with `p`.
pub fn begins_with(s: &Vec<char>, p: &Vec<char>) -> (r: bool)
    ensures
        r == starts_with(s@, p@),
{
    if p.len() > s.len() {
        return false;
    }
    let mut i: usize = 0;
    while i < p.len()
        invariant
            i <= p.len() <= s.len(),
            forall|j: int| 0 <= j < i ==> s[j] == p[j],
        decreases p.len() - i,
    {
        if s[i] != p[i] {
            assert(s@.take(p.len() as int)[i as int] != p[i as int]);
            return false;
        }
        i += 1;
    }
    assert(s@.take(p.len() as int) =~= p@);
    true
}

/// `s` with each `from` replaced by `to`.
pub fn replace_char(s: &Vec<char>, from: char, to: char) -> (r: Vec<char>)
    ensures
        r@ == replaced(s@, from, to),
{
    let mut r: Vec<char> = Vec::new();
    let mut i: usize = 0;
    while i < s.len()
        invariant
            i <= s.len(),
            r.len() == i,
            forall|j: int| 0 <= j < i ==> r[j] == replaced(s@, from, to)[j],
        decreases s.len() - i,
    {
        r.push(if s[i] == from { to } else { s[i] });
        i += 1;
    }
    assert(r@ =~= replaced(s@, from, to));
    r
}

/// `s` without the copies of `p` at its start, as many as there are.
pub fn trim_leading(s: &Vec<char>, p: &Vec<char>) -> (r: Vec<char>)
    ensures
        r@ == strip_leading(s@, p@),
{
    if p.len() == 0 {
        assert(s@.subrange(0, s@.len() as int) == s@);
        return copy_range(s, 0, s.len());
    }
    let mut start: usize = 0;
    assert(s@.skip(0) == s@);
    loop
        invariant
            start <= s.len(),
            p.len() > 0,
            strip_leading(s@, p@) == strip_leading(s@.skip(start as int), p@),
        decreases s.len() - start,
    {
        let rest = copy_range(s, start, s.len());
        assert(rest@ == s@.skip(start as int));
        if !begins_with(&rest, p) {
            return rest;
        }
        assert(rest@.skip(p.len() as int) == s@.skip(start + p.len()));
        start += p.len();
    }
}

/// Whether `a` comes before `b` or is `b`, in the order of a dictionary: the
/// first character that differs decides, and a text comes after its own
/// beginnings.
pub open spec fn lex_le(a: Seq<char>, b: Seq<char>) -> bool
    decreases a.len(),
{
    if a.len() == 0 {
        true
    } else if b.len() == 0 {
        false
    } else if a[0] != b[0] {
        a[0] < b[0]
    } else {
        lex_le(a.drop_first(), b.drop_first())
    }
}

/// Of two texts one comes before the other or is the other.
pub proof fn lemma_lex_total(a: Seq<char>, b: Seq<char>)
    ensures
        lex_le(a, b) || lex_le(b, a),
    decreases a.len(),
{
    if a.len() > 0 && b.len() > 0 && a[0] == b[0] {
        lemma_lex_total(a.drop_first(), b.drop_first());
    }
}

/// What comes before a text comes before everything after that text.
pub proof fn lemma_lex_transitive(a: Seq<char>, b: Seq<char>, c: Seq<char>)
    requires
        lex_le(a, b),
        lex_le(b, c),
    ensures
        lex_le(a, c),
    decreases a.len(),
{
    if a.len() > 0 && b.len() > 0 && c.len() > 0 && a[0] == b[0] && b[0] == c[0] {
        lemma_lex_transitive(a.drop_first(), b.drop_first(), c.drop_first());
    }
}

/// Whether `a` comes before `b` or is `b`, in the order of a dictionary.
pub fn lex_order(a: &Vec<char>, b: &Vec<char>) -> (r: bool)
    ensures
        r == lex_le(a@, b@),
{
    let mut i: usize = 0;
    assert(a@.skip(0) == a@ && b@.skip(0) == b@);
    while i < a.len() && i < b.len()
        invariant
            i <= a.len(),
            i <= b.len(),
            lex_le(a@, b@) == lex_le(a@.skip(i as int), b@.skip(i as int)),
        decreases a.len() - i,
    {
        if a[i] != b[i] {
            return a[i] < b[i];
        }
        assert(a@.skip(i as int).drop_first() == a@.skip(i + 1));
        assert(b@.skip(i as int).drop_first() == b@.skip(i + 1));
        i += 1;
    }
    i == a.len()
}

} // verus!
