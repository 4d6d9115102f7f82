//! How splitting a text into lines and joining lines into a text undo each
//! other: what is proved here carries the guarantees of the normalizer.

use crate::text::{
    first_newline, joined, lemma_first_newline, lemma_first_newline_is,
    lemma_trimmed_push_whitespace, lines_of, newline, strip_cr, strip_newlines, trimmed,
};
use vstd::prelude::*;

verus! {

/// Whether the text holds a carriage return directly before a line feed.
pub open spec fn has_cr_lf(t: Seq<char>) -> bool {
    exists|i: int| 0 <= i && i + 1 < t.len() && #[trigger] t[i] == '\r' && t[i + 1] == '\n'
}

/// Whether the line holds no line feed.
pub open spec fn newline_free(line: Seq<char>) -> bool {
    forall|i: int| 0 <= i < line.len() ==> line[i] != '\n'
}

/// Whether none of the lines holds a line feed.
pub open spec fn all_newline_free(lines: Seq<Seq<char>>) -> bool {
    forall|i: int| 0 <= i < lines.len() ==> newline_free(#[trigger] lines[i])
}

/// Whether the line is one of `source`, with or without the carriage return at
/// its end.
pub open spec fn is_from(line: Seq<char>, source: Seq<Seq<char>>) -> bool {
    exists|j: int|
        0 <= j < source.len() && (line == #[trigger] source[j] || line == strip_cr(source[j]))
}

/// Whether each of the lines is one of `source`, with or without the carriage
/// return at its end.
pub open spec fn drawn_from(lines: Seq<Seq<char>>, source: Seq<Seq<char>>) -> bool {
    forall|i: int| 0 <= i < lines.len() ==> is_from(#[trigger] lines[i], source)
}

/// The lines without the empty lines at their end.
pub open spec fn without_trailing_empty(lines: Seq<Seq<char>>) -> Seq<Seq<char>>
    decreases lines.len(),
{
    if lines.len() > 0 && lines.last().len() == 0 {
        without_trailing_empty(lines.drop_last())
    } else {
        lines
    }
}

/// A carriage return at the end of a line makes no difference once the line is
/// trimmed.
pub proof fn lemma_trimmed_strip_cr(line: Seq<char>)
    ensures
        trimmed(strip_cr(line)) == trimmed(line),
{
    if line.len() > 0 && line.last() == '\r' {
        assert(line == line.drop_last().push('\r'));
        lemma_trimmed_push_whitespace(line.drop_last(), '\r');
    }
}

/// Joining a first part and further parts gives the first part, and where
/// there are further parts, the separator and the further parts joined.
pub proof fn lemma_joined_front(first: Seq<char>, rest: Seq<Seq<char>>, sep: Seq<char>)
    ensures
        joined(seq![first] + rest, sep) == if rest.len() == 0 {
            first
        } else {
            first + sep + joined(rest, sep)
        },
    decreases rest.len(),
{
    let all = seq![first] + rest;
    if rest.len() == 0 {
        assert(all =~= seq![first]);
    } else {
        let shorter = rest.drop_last();
        lemma_joined_front(first, shorter, sep);
        assert(all.drop_last() =~= seq![first] + shorter);
        assert(all.last() == rest.last());
        if shorter.len() == 0 {
            assert(joined(rest, sep) == rest.last());
        } else {
            assert(joined(all, sep) =~= first + sep + joined(rest, sep));
        }
    }
}

/// No line of a text holds a line feed.
pub proof fn lemma_lines_newline_free(t: Seq<char>)
    ensures
        all_newline_free(lines_of(t)),
    decreases t.len(),
{
    if t.len() > 0 {
        lemma_first_newline(t);
        let k = first_newline(t) as int;
        if k < t.len() {
            let rest = t.skip(k + 1);
            lemma_lines_newline_free(rest);
            let first = strip_cr(t.take(k));
            assert(newline_free(first)) by {
                assert forall|i: int| 0 <= i < first.len() implies first[i] != '\n' by {
                    assert(first[i] == t[i]);
                }
            }
            assert forall|i: int| 0 <= i < lines_of(t).len() implies newline_free(
                #[trigger] lines_of(t)[i],
            ) by {
                if i > 0 {
                    assert(lines_of(t)[i] == lines_of(rest)[i - 1]);
                }
            }
        }
    }
}

/// The lines of a line without line feeds, a line feed and a further text are
/// that line, without the carriage return at its end, and the lines of the
/// further text.
pub proof fn lemma_lines_after_first(line: Seq<char>, rest: Seq<char>)
    requires
        newline_free(line),
    ensures
        lines_of(line + newline() + rest) == seq![strip_cr(line)] + lines_of(rest),
{
    let t = line + newline() + rest;
    let k = line.len() as int;
    assert forall|j: int| 0 <= j < k implies t[j] != '\n' by {
        assert(t[j] == line[j]);
    }
    assert(t[k] == '\n');
    lemma_first_newline_is(t, k);
    assert(t.take(k) =~= line);
    assert(t.skip(k + 1) =~= rest);
}

/// A text without line feeds is its own single line, or no line where it is
/// empty.
pub proof fn lemma_lines_of_one(line: Seq<char>)
    requires
        newline_free(line),
    ensures
        lines_of(line) == if line.len() == 0 {
            Seq::<Seq<char>>::empty()
        } else {
            seq![line]
        },
{
    if line.len() > 0 {
        lemma_first_newline_is(line, line.len() as int);
    }
}

/// The lines of joined lines, with or without a line feed after them, are
/// lines that were joined, with or without the carriage return at their end.
pub proof fn lemma_lines_of_joined(source: Seq<Seq<char>>, ended: bool)
    requires
        all_newline_free(source),
        source.len() > 0,
    ensures
        drawn_from(
            lines_of(
                if ended {
                    joined(source, newline()) + newline()
                } else {
                    joined(source, newline())
                },
            ),
            source,
        ),
    decreases source.len(),
{
    let first = source[0];
    let rest = source.drop_first();
    assert(source =~= seq![first] + rest);
    lemma_joined_front(first, rest, newline());
    let text = if ended {
        joined(source, newline()) + newline()
    } else {
        joined(source, newline())
    };
    assert(newline_free(first));
    if rest.len() == 0 {
        if ended {
            lemma_lines_after_first(first, Seq::empty());
            assert(first + newline() + Seq::<char>::empty() =~= text);
            assert(lines_of(text) =~= seq![strip_cr(first)]);
        } else {
            lemma_lines_of_one(first);
        }
        assert forall|i: int| 0 <= i < lines_of(text).len() implies is_from(
            #[trigger] lines_of(text)[i],
            source,
        ) by {
            assert(lines_of(text)[i] == source[0] || lines_of(text)[i] == strip_cr(source[0]));
        }
    } else {
        assert(all_newline_free(rest)) by {
            assert forall|i: int| 0 <= i < rest.len() implies newline_free(#[trigger] rest[i]) by {
                assert(rest[i] == source[i + 1]);
            }
        }
        lemma_lines_of_joined(rest, ended);
        let tail = if ended {
            joined(rest, newline()) + newline()
        } else {
            joined(rest, newline())
        };
        assert(text =~= first + newline() + tail);
        lemma_lines_after_first(first, tail);
        assert forall|i: int| 0 <= i < lines_of(text).len() implies is_from(
            #[trigger] lines_of(text)[i],
            source,
        ) by {
            if i == 0 {
                assert(lines_of(text)[i] == strip_cr(source[0]));
            } else {
                let line = lines_of(tail)[i - 1];
                assert(lines_of(text)[i] == line);
                assert(is_from(line, rest));
                let j = choose|j: int|
                    0 <= j < rest.len() && (line == #[trigger] rest[j] || line == strip_cr(
                        rest[j],
                    ));
                assert(rest[j] == source[j + 1]);
            }
        }
    }
}

/// The lines without the empty lines at their end are the first of the lines,
/// and the last of them is not empty.
pub proof fn lemma_without_trailing_empty(lines: Seq<Seq<char>>)
    ensures
        without_trailing_empty(lines).len() <= lines.len(),
        without_trailing_empty(lines) == lines.take(without_trailing_empty(lines).len() as int),
        without_trailing_empty(lines).len() > 0 ==> without_trailing_empty(lines).last().len() > 0,
    decreases lines.len(),
{
    if lines.len() > 0 && lines.last().len() == 0 {
        let shorter = lines.drop_last();
        lemma_without_trailing_empty(shorter);
        let r = without_trailing_empty(shorter);
        assert(shorter.take(r.len() as int) =~= lines.take(r.len() as int));
    } else {
        assert(lines.take(lines.len() as int) =~= lines);
    }
}

/// Stripping the line feeds at the end of joined lines leaves the lines joined
/// without the empty lines at their end.
pub proof fn lemma_strip_joined(lines: Seq<Seq<char>>)
    requires
        all_newline_free(lines),
    ensures
        strip_newlines(joined(lines, newline())) == joined(
            without_trailing_empty(lines),
            newline(),
        ),
    decreases lines.len(),
{
    if lines.len() > 0 {
        let shorter = lines.drop_last();
        let last = lines.last();
        let text = joined(lines, newline());
        assert(newline_free(last));
        if last.len() == 0 {
            assert(all_newline_free(shorter)) by {
                assert forall|i: int| 0 <= i < shorter.len() implies newline_free(
                    #[trigger] shorter[i],
                ) by {
                    assert(shorter[i] == lines[i]);
                }
            }
            lemma_strip_joined(shorter);
            if shorter.len() > 0 {
                assert(text =~= joined(shorter, newline()).push('\n'));
                assert(text.drop_last() =~= joined(shorter, newline()));
            }
        } else {
            if shorter.len() > 0 {
                assert(text.last() == last.last());
            }
            assert(text.last() != '\n');
        }
    }
}

/// Joining the lines of a text that holds no carriage return before a line
/// feed gives the text back, but for one line feed at its end.
pub proof fn lemma_joined_lines(t: Seq<char>)
    requires
        !has_cr_lf(t),
    ensures
        joined(lines_of(t), newline()) == if t.len() > 0 && t.last() == '\n' {
            t.drop_last()
        } else {
            t
        },
    decreases t.len(),
{
    if t.len() > 0 {
        lemma_first_newline(t);
        let k = first_newline(t) as int;
        if k < t.len() {
            let first = t.take(k);
            let rest = t.skip(k + 1);
            if k > 0 && first.last() == '\r' {
                assert(t[k - 1] == '\r' && t[k - 1 + 1] == '\n');
                assert(has_cr_lf(t));
            }
            assert(strip_cr(first) == first);
            assert(!has_cr_lf(rest)) by {
                if has_cr_lf(rest) {
                    let i = choose|i: int|
                        0 <= i && i + 1 < rest.len() && #[trigger] rest[i] == '\r' && rest[i + 1]
                            == '\n';
                    assert(t[i + k + 1] == '\r' && t[i + k + 1 + 1] == '\n');
                    assert(has_cr_lf(t));
                }
            }
            lemma_joined_lines(rest);
            lemma_joined_front(first, lines_of(rest), newline());
            if rest.len() == 0 {
                assert(first =~= t.drop_last());
            } else {
                assert(lines_of(rest).len() > 0);
                assert(t.last() == rest.last());
                if rest.last() == '\n' {
                    assert(first + newline() + rest.drop_last() =~= t.drop_last());
                } else {
                    assert(first + newline() + rest =~= t);
                }
            }
        }
    }
}

/// What follows the first line of a text and its line feed; nothing where
/// the text has one line only.
pub open spec fn after_first_line(t: Seq<char>) -> Seq<char> {
    if first_newline(t) < t.len() {
        t.skip(first_newline(t) as int + 1)
    } else {
        Seq::empty()
    }
}

/// A first line that is not empty stays when the empty lines at the end are
/// taken away.
pub proof fn lemma_without_trailing_empty_front(first: Seq<char>, rest: Seq<Seq<char>>)
    requires
        first.len() > 0,
    ensures
        without_trailing_empty(seq![first] + rest) == seq![first] + without_trailing_empty(rest),
    decreases rest.len(),
{
    let all = seq![first] + rest;
    if rest.len() > 0 && rest.last().len() == 0 {
        lemma_without_trailing_empty_front(first, rest.drop_last());
        assert(all.drop_last() =~= seq![first] + rest.drop_last());
        assert(all.last() == rest.last());
    } else if rest.len() > 0 {
        assert(all.last() == rest.last());
    } else {
        assert(all =~= seq![first]);
    }
}

/// Joined lines whose last line is not empty end as that line does.
pub proof fn lemma_joined_last(lines: Seq<Seq<char>>, sep: Seq<char>)
    requires
        lines.len() > 0,
        lines.last().len() > 0,
    ensures
        joined(lines, sep).len() > 0,
        joined(lines, sep).last() == lines.last().last(),
{
}

} // verus!
