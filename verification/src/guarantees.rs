//! What holds of the normalizer on every input: running it twice changes
//! nothing more, the end of the text follows the policy, a file with the right
//! header is left alone, and cleaning only takes lines away.

use crate::args::Args;
use crate::cli::{header_for, style_for, verdict_of, CliView, FileInputView, VerdictView};
use crate::comments::{canonical_header, lemma_delimiters, Style};
use crate::normalize::{
    assembled, assembled_text, dropped, finished, header_present, kept_lines, marked, new_lines,
    normalized, short_circuits, stale_marks, wants_newline, Change, RewriteView,
};
use crate::paths::relative_path;
use crate::pattern::is_path_comment;
use crate::rejoin::{
    after_first_line, all_newline_free, drawn_from, has_cr_lf, is_from, lemma_joined_front,
    lemma_joined_last, lemma_joined_lines, lemma_lines_after_first, lemma_lines_newline_free,
    lemma_lines_of_joined, lemma_lines_of_one, lemma_strip_joined, lemma_trimmed_strip_cr,
    lemma_without_trailing_empty, lemma_without_trailing_empty_front, newline_free,
    without_trailing_empty,
};
use crate::text::{
    first_newline, has_char, joined, lemma_first_newline_is, lemma_strip_newlines, lines_of,
    newline, strip_cr, strip_newlines,
};
use vstd::prelude::*;

verus! {

/// Whether `s` ends with a line feed.
pub open spec fn ends_with_newline(s: Seq<char>) -> bool {
    s.len() > 0 && s.last() == '\n'
}

/// Whether `s` ends with one line feed and not with two.
pub open spec fn ends_with_one_newline(s: Seq<char>) -> bool {
    ends_with_newline(s) && !ends_with_newline(s.drop_last())
}

/// Whether a line is no path comment of the style.
pub open spec fn not_path_comment(style: Style) -> spec_fn(Seq<char>) -> bool {
    |line: Seq<char>| !is_path_comment(style, line)
}

/// The text that the policy finishes ends with exactly one line feed where one
/// is wanted, and with none where none is.
pub proof fn lemma_finished_end(text: Seq<char>, newline_wanted: bool)
    ensures
        newline_wanted ==> ends_with_one_newline(finished(text, newline_wanted)),
        !newline_wanted ==> !ends_with_newline(finished(text, newline_wanted)),
{
    lemma_strip_newlines(text);
    if newline_wanted {
        assert(strip_newlines(text).push('\n').drop_last() == strip_newlines(text));
    }
}

/// The outcome built from marks either keeps the old text, which then equals
/// the assembled one, or carries the assembled one.
pub proof fn lemma_assembled_content(
    content: Seq<char>,
    header: Seq<char>,
    marks: Seq<bool>,
    clean: bool,
)
    ensures
        assembled(content, header, marks, clean).content == assembled_text(
            content,
            header,
            marks,
            clean,
        ),
        assembled(content, header, marks, clean).change == Change::Unchanged <==> assembled_text(
            content,
            header,
            marks,
            clean,
        ) == content,
{
}

/// Whatever the marks and the mode, the assembled text ends with exactly one
/// line feed if the old text ended with one or was empty, and with none
/// otherwise.
pub proof fn lemma_assembled_trailing_newline(
    content: Seq<char>,
    header: Seq<char>,
    marks: Seq<bool>,
    clean: bool,
)
    ensures
        wants_newline(content) ==> ends_with_one_newline(
            assembled(content, header, marks, clean).content,
        ),
        !wants_newline(content) ==> !ends_with_newline(
            assembled(content, header, marks, clean).content,
        ),
{
    lemma_assembled_content(content, header, marks, clean);
    lemma_finished_end(
        joined(new_lines(content, header, marks, clean), newline()),
        wants_newline(content),
    );
}

/// In every mode the result of normalizing ends with exactly one line feed if
/// the text ended with one or was empty, and with none otherwise. A file that
/// is left alone because its header is there keeps its own end, so one that
/// ends with several line feeds is set aside.
pub proof fn lemma_trailing_newline(
    content: Seq<char>,
    header: Seq<char>,
    style: Style,
    strip: bool,
    clean: bool,
)
    requires
        !(short_circuits(lines_of(content), header, strip) && ends_with_newline(content)
            && ends_with_newline(content.drop_last())),
    ensures
        wants_newline(content) ==> ends_with_one_newline(
            normalized(content, header, style, strip, clean).content,
        ),
        !wants_newline(content) ==> !ends_with_newline(
            normalized(content, header, style, strip, clean).content,
        ),
{
    let lines = lines_of(content);
    if short_circuits(lines, header, strip) {
        assert(content.len() > 0);
    } else {
        lemma_assembled_trailing_newline(
            content,
            header,
            stale_marks(style, lines, header_present(lines, header), strip),
            clean,
        );
    }
}

/// A text whose first line is the header, whitespace at the ends set aside,
/// comes back byte for byte and is reported unchanged when stripping is off.
pub proof fn lemma_header_present_unchanged(
    content: Seq<char>,
    header: Seq<char>,
    style: Style,
    clean: bool,
)
    requires
        header_present(lines_of(content), header),
    ensures
        normalized(content, header, style, false, clean).content == content,
        normalized(content, header, style, false, clean).change == Change::Unchanged,
        normalized(content, header, style, false, clean).removed.len() == 0,
{
}

/// With stripping on, the lines that stay are the lines that are no path
/// comments, in order; a first line that is the header is not among them.
pub proof fn lemma_kept_lines_filter(lines: Seq<Seq<char>>, style: Style, present: bool, n: nat)
    requires
        n <= lines.len(),
        present ==> 1 <= n,
    ensures
        kept_lines(lines, stale_marks(style, lines, present, true), present, n) == lines.subrange(
            if present {
                1
            } else {
                0
            },
            n as int,
        ).filter(not_path_comment(style)),
    decreases n,
{
    reveal(Seq::filter);
    let marks = stale_marks(style, lines, present, true);
    let start: int = if present {
        1
    } else {
        0
    };
    if n == start {
        if present {
            assert(dropped(marks, present, 0));
            assert(kept_lines(lines, marks, present, 0) == Seq::<Seq<char>>::empty());
        }
        assert(lines.subrange(start, n as int) =~= Seq::<Seq<char>>::empty());
    } else {
        lemma_kept_lines_filter(lines, style, present, (n - 1) as nat);
        let part = lines.subrange(start, n as int);
        assert(part.drop_last() =~= lines.subrange(start, n - 1));
        assert(part.last() == lines[n - 1]);
        assert(marked(marks, n - 1) == is_path_comment(style, lines[n - 1]));
    }
}

/// When cleaning with stripping, whether or not the header is there, the new
/// text is made of the old lines that are no path comments, without the header
/// line and without any line that the text did not hold.
pub proof fn lemma_clean_mode(content: Seq<char>, header: Seq<char>, style: Style)
    ensures
        normalized(content, header, style, true, true).content == finished(
            joined(
                lines_of(content).subrange(
                    if header_present(lines_of(content), header) {
                        1
                    } else {
                        0
                    },
                    lines_of(content).len() as int,
                ).filter(not_path_comment(style)),
                newline(),
            ),
            wants_newline(content),
        ),
{
    let lines = lines_of(content);
    let present = header_present(lines, header);
    let marks = stale_marks(style, lines, present, true);
    lemma_kept_lines_filter(lines, style, present, lines.len());
    lemma_assembled_content(content, header, marks, true);
}

/// Joining a first part without a line feed and any further parts gives that
/// part followed by nothing or by a line feed.
pub proof fn lemma_joined_first(first: Seq<char>, rest: Seq<Seq<char>>)
    ensures
        joined(seq![first] + rest, newline()).len() >= first.len(),
        joined(seq![first] + rest, newline()).take(first.len() as int) == first,
        joined(seq![first] + rest, newline()).len() > first.len() ==> joined(
            seq![first] + rest,
            newline(),
        )[first.len() as int] == '\n',
    decreases rest.len(),
{
    let all = seq![first] + rest;
    if rest.len() == 0 {
        assert(all =~= seq![first]);
        assert(first.take(first.len() as int) == first);
    } else {
        let shorter = rest.drop_last();
        lemma_joined_first(first, shorter);
        assert(all.drop_last() =~= seq![first] + shorter);
        let before = joined(seq![first] + shorter, newline());
        let whole = before + newline() + rest.last();
        assert(joined(all, newline()) == whole);
        assert(whole.take(first.len() as int) =~= before.take(first.len() as int));
        if before.len() == first.len() {
            assert(whole[first.len() as int] == newline()[0]);
        } else {
            assert(whole[first.len() as int] == before[first.len() as int]);
        }
    }
}

/// A text that begins with a header free of line feeds, followed by nothing or
/// by a line feed, has the header as its first line, whitespace at the ends
/// set aside.
pub proof fn lemma_first_line_is_header(text: Seq<char>, header: Seq<char>)
    requires
        header.len() > 0,
        !has_char(header, '\n'),
        text.len() >= header.len(),
        text.take(header.len() as int) == header,
        text.len() > header.len() ==> text[header.len() as int] == '\n',
    ensures
        header_present(lines_of(text), header),
{
    let k = header.len() as int;
    assert forall|j: int| 0 <= j < k implies text[j] != '\n' by {
        assert(text[j] == text.take(k)[j]);
        assert(header[j] != '\n');
    }
    lemma_first_newline_is(text, k);
    if k < text.len() {
        let first = strip_cr(header);
        assert(lines_of(text)[0] == first);
        lemma_trimmed_strip_cr(header);
    } else {
        assert(text.take(k) == text);
    }
}

/// The text assembled with a header in front begins with the header, followed
/// by nothing or by a line feed.
pub proof fn lemma_assembled_begins_with_header(
    content: Seq<char>,
    header: Seq<char>,
    marks: Seq<bool>,
)
    requires
        header.len() > 0,
        !has_char(header, '\n'),
    ensures
        header_present(lines_of(assembled_text(content, header, marks, false)), header),
{
    let lines = lines_of(content);
    let body = kept_lines(lines, marks, header_present(lines, header), lines.len());
    let text = joined(seq![header] + body, newline());
    let k = header.len() as int;
    lemma_joined_first(header, body);
    lemma_strip_newlines(text);
    let stripped = strip_newlines(text);
    if stripped.len() < k {
        assert(text[k - 1] == '\n');
        assert(text[k - 1] == text.take(k)[k - 1]);
        assert(header[k - 1] != '\n');
    }
    assert(stripped.take(k) =~= text.take(k));
    let out = assembled_text(content, header, marks, false);
    assert(out.take(k) =~= stripped.take(k));
    if out.len() > k {
        if stripped.len() > k {
            assert(out[k] == text[k]);
        } else {
            assert(out[k] == '\n');
        }
    }
    lemma_first_line_is_header(out, header);
}

/// Where the first line is the header and no line after it is marked, the
/// lines that stay are the lines after the first.
pub proof fn lemma_kept_lines_rest(lines: Seq<Seq<char>>, marks: Seq<bool>, n: nat)
    requires
        1 <= n <= lines.len(),
        forall|i: int| 1 <= i < n ==> !marked(marks, i),
    ensures
        kept_lines(lines, marks, true, n) == lines.subrange(1, n as int),
    decreases n,
{
    if n == 1 {
        assert(kept_lines(lines, marks, true, 0) =~= Seq::<Seq<char>>::empty());
        assert(lines.subrange(1, 1) =~= Seq::<Seq<char>>::empty());
    } else {
        lemma_kept_lines_rest(lines, marks, (n - 1) as nat);
        assert(!marked(marks, n - 1));
        assert(lines.subrange(1, n - 1).push(lines[n - 1]) =~= lines.subrange(1, n as int));
    }
}

/// With stripping on, no line that stays holds a line feed, and none is a path
/// comment of the style.
pub proof fn lemma_kept_when_stripping(lines: Seq<Seq<char>>, style: Style, present: bool)
    requires
        all_newline_free(lines),
    ensures
        all_newline_free(
            kept_lines(lines, stale_marks(style, lines, present, true), present, lines.len()),
        ),
        forall|i: int|
            0 <= i < kept_lines(
                lines,
                stale_marks(style, lines, present, true),
                present,
                lines.len(),
            ).len() ==> !is_path_comment(
                style,
                #[trigger] kept_lines(
                    lines,
                    stale_marks(style, lines, present, true),
                    present,
                    lines.len(),
                )[i],
            ),
{
    let marks = stale_marks(style, lines, present, true);
    let kept = kept_lines(lines, marks, present, lines.len());
    lemma_kept_lines_members(lines, marks, present, lines.len());
    assert forall|i: int| 0 <= i < kept.len() implies newline_free(#[trigger] kept[i])
        && !is_path_comment(style, kept[i]) by {
        let j = choose|j: int|
            0 <= j < lines.len() && !dropped(marks, present, j) && kept[i] == lines[j];
        assert(newline_free(lines[j]));
        assert(!marked(marks, j));
    }
}

/// The text that stands for a header and lines after it, with or without a
/// line feed at its end.
pub open spec fn headed_text(header: Seq<char>, body: Seq<Seq<char>>, ended: bool) -> Seq<char> {
    if ended {
        joined(seq![header] + body, newline()).push('\n')
    } else {
        joined(seq![header] + body, newline())
    }
}

/// A text that is nothing but its header is assembled again as it is.
pub proof fn lemma_rerun_header_only(header: Seq<char>, ended: bool, marks: Seq<bool>)
    requires
        header.len() > 0,
        newline_free(header),
    ensures
        assembled_text(
            headed_text(header, Seq::empty(), ended),
            header,
            marks,
            false,
        ) == headed_text(header, Seq::empty(), ended),
{
    let once = headed_text(header, Seq::empty(), ended);
    assert(seq![header] + Seq::<Seq<char>>::empty() =~= seq![header]);
    assert(joined(seq![header], newline()) == header);
    let lines = lines_of(once);
    if ended {
        lemma_lines_after_first(header, Seq::empty());
        assert(once =~= header + newline() + Seq::<char>::empty());
        lemma_trimmed_strip_cr(header);
    } else {
        lemma_lines_of_one(header);
    }
    assert(lines.len() == 1);
    assert(header_present(lines, header));
    assert(kept_lines(lines, marks, true, 0) =~= Seq::<Seq<char>>::empty());
    assert(kept_lines(lines, marks, true, 1) =~= Seq::<Seq<char>>::empty());
    assert(new_lines(once, header, marks, false) =~= seq![header]);
    assert(strip_newlines(header) == header);
    assert(assembled_text(once, header, marks, false) =~= once);
}

/// A text made of its header and of lines that are no path comments, the last
/// of them not empty, is assembled again as it is when stripping is on;
/// unless a carriage return stands before a line feed after the first line.
pub proof fn lemma_rerun_with_body(
    header: Seq<char>,
    core: Seq<Seq<char>>,
    ended: bool,
    style: Style,
)
    requires
        header.len() > 0,
        newline_free(header),
        core.len() > 0,
        core.last().len() > 0,
        all_newline_free(core),
        forall|j: int| 0 <= j < core.len() ==> !is_path_comment(style, #[trigger] core[j]),
        !has_cr_lf(after_first_line(headed_text(header, core, ended))),
    ensures
        assembled_text(
            headed_text(header, core, ended),
            header,
            stale_marks(style, lines_of(headed_text(header, core, ended)), true, true),
            false,
        ) == headed_text(header, core, ended),
{
    let once = headed_text(header, core, ended);
    let lines2 = lines_of(once);
    let marks2 = stale_marks(style, lines2, true, true);
    let body0 = joined(core, newline());
    let body = if ended {
        body0 + newline()
    } else {
        body0
    };
    lemma_joined_front(header, core, newline());
    lemma_joined_last(core, newline());
    assert(newline_free(core.last()));
    assert(body0.last() != '\n');
    assert(once =~= header + newline() + body);
    let k = header.len() as int;
    assert(first_newline(once) == k) by {
        assert forall|j: int| 0 <= j < k implies once[j] != '\n' by {
            assert(once[j] == header[j]);
        }
        assert(once[k] == '\n');
        lemma_first_newline_is(once, k);
    }
    assert(after_first_line(once) =~= body);
    let rest = lines_of(body);
    assert(lines2 == seq![strip_cr(header)] + rest) by {
        lemma_lines_after_first(header, body);
    }
    assert(header_present(lines2, header)) by {
        lemma_trimmed_strip_cr(header);
    }
    assert(drawn_from(rest, core)) by {
        lemma_lines_of_joined(core, ended);
    }
    assert forall|i: int| 1 <= i < lines2.len() implies !marked(marks2, i) by {
        assert(lines2[i] == rest[i - 1]);
        assert(is_from(rest[i - 1], core));
        let j = choose|j: int|
            0 <= j < core.len() && (rest[i - 1] == #[trigger] core[j] || rest[i - 1] == strip_cr(
                core[j],
            ));
        lemma_trimmed_strip_cr(core[j]);
    }
    assert(kept_lines(lines2, marks2, true, lines2.len()) == rest) by {
        lemma_kept_lines_rest(lines2, marks2, lines2.len());
        assert(lines2.subrange(1, lines2.len() as int) =~= rest);
    }
    assert(joined(rest, newline()) == body0) by {
        lemma_joined_lines(body);
        if ended {
            assert(body.drop_last() =~= body0);
        }
    }
    assert(rest.len() > 0);
    let text = header + newline() + body0;
    assert(joined(seq![header] + rest, newline()) == text) by {
        lemma_joined_front(header, rest, newline());
    }
    assert(text.last() == body0.last());
    assert(strip_newlines(text) == text);
    assert(wants_newline(once) == ended);
    assert(assembled_text(once, header, marks2, false) =~= once);
}

/// With stripping on, the result of normalizing towards a header is the header
/// and the lines that stay, without the empty lines at their end; none of the
/// lines holds a line feed or is a path comment.
pub proof fn lemma_result_when_stripping(content: Seq<char>, header: Seq<char>, style: Style)
    requires
        header.len() > 0,
        newline_free(header),
    ensures
        normalized(content, header, style, true, false).content == headed_text(
            header,
            without_trailing_empty(
                kept_lines(
                    lines_of(content),
                    stale_marks(
                        style,
                        lines_of(content),
                        header_present(lines_of(content), header),
                        true,
                    ),
                    header_present(lines_of(content), header),
                    lines_of(content).len(),
                ),
            ),
            wants_newline(content),
        ),
        all_newline_free(
            kept_lines(
                lines_of(content),
                stale_marks(
                    style,
                    lines_of(content),
                    header_present(lines_of(content), header),
                    true,
                ),
                header_present(lines_of(content), header),
                lines_of(content).len(),
            ),
        ),
        forall|i: int|
            0 <= i < kept_lines(
                lines_of(content),
                stale_marks(
                    style,
                    lines_of(content),
                    header_present(lines_of(content), header),
                    true,
                ),
                header_present(lines_of(content), header),
                lines_of(content).len(),
            ).len() ==> !is_path_comment(
                style,
                #[trigger] kept_lines(
                    lines_of(content),
                    stale_marks(
                        style,
                        lines_of(content),
                        header_present(lines_of(content), header),
                        true,
                    ),
                    header_present(lines_of(content), header),
                    lines_of(content).len(),
                )[i],
            ),
{
    let lines1 = lines_of(content);
    let present1 = header_present(lines1, header);
    let marks1 = stale_marks(style, lines1, present1, true);
    let kept1 = kept_lines(lines1, marks1, present1, lines1.len());
    lemma_assembled_content(content, header, marks1, false);
    lemma_lines_newline_free(content);
    lemma_kept_when_stripping(lines1, style, present1);
    let source = seq![header] + kept1;
    assert(all_newline_free(source)) by {
        assert forall|i: int| 0 <= i < source.len() implies newline_free(#[trigger] source[i]) by {
            if i > 0 {
                assert(source[i] == kept1[i - 1]);
            }
        }
    }
    lemma_strip_joined(source);
    lemma_without_trailing_empty_front(header, kept1);
}

/// With stripping on and a header written, normalizing the result of
/// normalizing gives the same text, unless a carriage return stands before a
/// line feed after the first line.
pub proof fn lemma_idempotent_stripping(content: Seq<char>, header: Seq<char>, style: Style)
    requires
        header.len() > 0,
        !has_char(header, '\n'),
        !has_cr_lf(after_first_line(normalized(content, header, style, true, false).content)),
    ensures
        normalized(
            normalized(content, header, style, true, false).content,
            header,
            style,
            true,
            false,
        ).content == normalized(content, header, style, true, false).content,
        normalized(
            normalized(content, header, style, true, false).content,
            header,
            style,
            true,
            false,
        ).change == Change::Unchanged,
{
    let lines1 = lines_of(content);
    let present1 = header_present(lines1, header);
    let marks1 = stale_marks(style, lines1, present1, true);
    let kept1 = kept_lines(lines1, marks1, present1, lines1.len());
    let once = normalized(content, header, style, true, false).content;
    assert(newline_free(header)) by {
        assert forall|i: int| 0 <= i < header.len() implies header[i] != '\n' by {
            if header[i] == '\n' {
                assert(has_char(header, '\n'));
            }
        }
    }
    lemma_result_when_stripping(content, header, style);
    let core = without_trailing_empty(kept1);
    lemma_without_trailing_empty(kept1);
    lemma_assembled_content(content, header, marks1, false);
    lemma_assembled_begins_with_header(content, header, marks1);
    let lines2 = lines_of(once);
    let marks2 = stale_marks(style, lines2, true, true);
    lemma_assembled_content(once, header, marks2, false);
    if core.len() == 0 {
        assert(core =~= Seq::<Seq<char>>::empty());
        lemma_rerun_header_only(header, wants_newline(content), marks2);
    } else {
        assert(all_newline_free(core)) by {
            assert forall|i: int| 0 <= i < core.len() implies newline_free(#[trigger] core[i]) by {
                assert(core[i] == kept1[i]);
            }
        }
        assert forall|j: int| 0 <= j < core.len() implies !is_path_comment(
            style,
            #[trigger] core[j],
        ) by {
            assert(core[j] == kept1[j]);
        }
        lemma_rerun_with_body(header, core, wants_newline(content), style);
    }
}

/// Where a header is written, normalizing the result of normalizing gives the
/// same text, byte for byte, and reports it unchanged. The header must be one
/// line, so it is not empty and holds no line feed. With stripping on, a
/// result that holds a carriage return before a line feed after its first line
/// is set aside: a second run takes the carriage return away.
pub proof fn lemma_idempotent(content: Seq<char>, header: Seq<char>, style: Style, strip: bool)
    requires
        header.len() > 0,
        !has_char(header, '\n'),
        strip ==> !has_cr_lf(
            after_first_line(normalized(content, header, style, strip, false).content),
        ),
    ensures
        normalized(
            normalized(content, header, style, strip, false).content,
            header,
            style,
            strip,
            false,
        ).content == normalized(content, header, style, strip, false).content,
        normalized(
            normalized(content, header, style, strip, false).content,
            header,
            style,
            strip,
            false,
        ).change == Change::Unchanged,
{
    let lines = lines_of(content);
    if strip {
        lemma_idempotent_stripping(content, header, style);
    } else if !short_circuits(lines, header, strip) {
        let marks = stale_marks(style, lines, header_present(lines, header), strip);
        lemma_assembled_content(content, header, marks, false);
        lemma_assembled_begins_with_header(content, header, marks);
    }
}

/// The header of a path without line feeds is one line.
pub proof fn lemma_canonical_header_one_line(style: Style, rel_path: Seq<char>)
    requires
        !has_char(rel_path, '\n'),
    ensures
        canonical_header(style, rel_path).len() > 0,
        !has_char(canonical_header(style, rel_path), '\n'),
{
    lemma_delimiters(style);
    let header = canonical_header(style, rel_path);
    let p = style.prefix().len() as int;
    let q = p + rel_path.len();
    assert forall|i: int| 0 <= i < header.len() implies header[i] != '\n' by {
        if i < p {
            assert(header[i] == style.prefix()[i]);
        } else if i < q {
            assert(header[i] == rel_path[i - p]);
        } else {
            assert(header[i] == style.suffix()[i - q]);
        }
    }
}

/// For every text, style and path without line feeds, with or without
/// stripping, normalizing the result of normalizing towards the header of the
/// path gives the same text and reports it unchanged; with stripping on, but
/// for a result that holds a carriage return before a line feed after its
/// first line.
pub proof fn lemma_idempotent_for_path(
    content: Seq<char>,
    rel_path: Seq<char>,
    style: Style,
    strip: bool,
)
    requires
        !has_char(rel_path, '\n'),
        strip ==> !has_cr_lf(
            after_first_line(
                normalized(content, canonical_header(style, rel_path), style, strip, false).content,
            ),
        ),
    ensures
        normalized(
            normalized(content, canonical_header(style, rel_path), style, strip, false).content,
            canonical_header(style, rel_path),
            style,
            strip,
            false,
        ).content == normalized(
            content,
            canonical_header(style, rel_path),
            style,
            strip,
            false,
        ).content,
        normalized(
            normalized(content, canonical_header(style, rel_path), style, strip, false).content,
            canonical_header(style, rel_path),
            style,
            strip,
            false,
        ).change == Change::Unchanged,
{
    lemma_canonical_header_one_line(style, rel_path);
    lemma_idempotent(content, canonical_header(style, rel_path), style, strip);
}

/// A text that is not empty, holds no carriage return before a line feed and
/// does not end with two line feeds is what its own lines give when they are
/// joined and finished.
pub proof fn lemma_canonical(t: Seq<char>)
    requires
        t.len() > 0,
        !has_cr_lf(t),
        !(ends_with_newline(t) && ends_with_newline(t.drop_last())),
    ensures
        finished(joined(lines_of(t), newline()), wants_newline(t)) == t,
{
    lemma_joined_lines(t);
    if t.last() == '\n' {
        assert(t.drop_last().push('\n') =~= t);
    }
}

/// Where no line is marked and the first line is not the header, every line
/// stays.
pub proof fn lemma_kept_lines_all(lines: Seq<Seq<char>>, marks: Seq<bool>, n: nat)
    requires
        n <= lines.len(),
        forall|i: int| 0 <= i < n ==> !marked(marks, i),
    ensures
        kept_lines(lines, marks, false, n) == lines.take(n as int),
    decreases n,
{
    if n > 0 {
        lemma_kept_lines_all(lines, marks, (n - 1) as nat);
        assert(!marked(marks, n - 1));
        assert(lines.take(n - 1).push(lines[n - 1]) =~= lines.take(n as int));
    } else {
        assert(lines.take(0) =~= Seq::<Seq<char>>::empty());
    }
}

/// Each line that stays is one of the lines, and one that does not leave.
pub proof fn lemma_kept_lines_members(
    lines: Seq<Seq<char>>,
    marks: Seq<bool>,
    present: bool,
    n: nat,
)
    requires
        n <= lines.len(),
    ensures
        forall|i: int|
            0 <= i < kept_lines(lines, marks, present, n).len() ==> exists|j: int|
                0 <= j < n && !dropped(marks, present, j) && #[trigger] kept_lines(
                    lines,
                    marks,
                    present,
                    n,
                )[i] == lines[j],
    decreases n,
{
    if n > 0 {
        let before = kept_lines(lines, marks, present, (n - 1) as nat);
        let kept = kept_lines(lines, marks, present, n);
        lemma_kept_lines_members(lines, marks, present, (n - 1) as nat);
        assert forall|i: int| 0 <= i < kept.len() implies exists|j: int|
            0 <= j < n && !dropped(marks, present, j) && #[trigger] kept[i] == lines[j] by {
            if i < before.len() {
                let j = choose|j: int|
                    0 <= j < n - 1 && !dropped(marks, present, j) && before[i] == lines[j];
                assert(kept[i] == lines[j]);
            } else {
                assert(kept[i] == lines[n - 1]);
            }
        }
    }
}

/// Whether normalizing the result of normalizing in clean mode can be
/// expected to change nothing: the second run leaves the text alone because
/// its header is there; or the text is not empty, holds no carriage return
/// before a line feed, and does not begin with the header.
pub open spec fn settles_when_cleaned(
    once: Seq<char>,
    header: Seq<char>,
    strip: bool,
) -> bool {
    ||| short_circuits(lines_of(once), header, strip)
    ||| (once.len() > 0 && !has_cr_lf(once) && !header_present(lines_of(once), header))
}

/// When cleaning, normalizing the result of normalizing gives the same text,
/// byte for byte, and reports it unchanged. Three kinds of result
/// are set aside, on which a second run does change the text: the empty text,
/// which gets a line feed; a text with a carriage return before a line feed,
/// which loses the carriage return; and, with stripping, a text whose first
/// line is the header, which loses that line.
pub proof fn lemma_idempotent_clean(
    content: Seq<char>,
    header: Seq<char>,
    style: Style,
    strip: bool,
)
    requires
        settles_when_cleaned(
            normalized(content, header, style, strip, true).content,
            header,
            strip,
        ),
    ensures
        normalized(
            normalized(content, header, style, strip, true).content,
            header,
            style,
            strip,
            true,
        ).content == normalized(content, header, style, strip, true).content,
        normalized(
            normalized(content, header, style, strip, true).content,
            header,
            style,
            strip,
            true,
        ).change == Change::Unchanged,
{
    let lines1 = lines_of(content);
    let present1 = header_present(lines1, header);
    let once = normalized(content, header, style, strip, true).content;
    let lines2 = lines_of(once);
    if !short_circuits(lines1, header, strip) && !short_circuits(lines2, header, strip) {
        let marks1 = stale_marks(style, lines1, present1, strip);
        let kept1 = kept_lines(lines1, marks1, present1, lines1.len());
        let wanted = wants_newline(content);
        let marks2 = stale_marks(style, lines2, false, strip);
        lemma_assembled_content(content, header, marks1, true);
        lemma_assembled_content(once, header, marks2, true);
        lemma_finished_end(joined(kept1, newline()), wanted);
        assert(once == finished(joined(kept1, newline()), wanted));
        lemma_canonical(once);
        lemma_lines_newline_free(content);
        lemma_kept_lines_members(lines1, marks1, present1, lines1.len());
        assert(all_newline_free(kept1)) by {
            assert forall|i: int| 0 <= i < kept1.len() implies newline_free(#[trigger] kept1[i]) by {
                let j = choose|j: int|
                    0 <= j < lines1.len() && !dropped(marks1, present1, j) && kept1[i]
                        == lines1[j];
                assert(newline_free(lines1[j]));
            }
        }
        let core = without_trailing_empty(kept1);
        lemma_strip_joined(kept1);
        lemma_without_trailing_empty(kept1);
        if core.len() == 0 {
            assert(once =~= Seq::<char>::empty() + newline() + Seq::<char>::empty());
            lemma_lines_after_first(Seq::empty(), Seq::empty());
            assert(lines2 =~= seq![Seq::<char>::empty()]);
            let kept2 = kept_lines(lines2, marks2, false, 1);
            assert(kept_lines(lines2, marks2, false, 0) =~= Seq::<Seq<char>>::empty());
            assert(kept2 =~= Seq::<Seq<char>>::empty() || kept2 =~= seq![Seq::<char>::empty()]);
            assert(joined(kept2, newline()) =~= Seq::<char>::empty());
            assert(assembled_text(once, header, marks2, true) =~= once);
        } else {
            assert(all_newline_free(core)) by {
                assert forall|i: int| 0 <= i < core.len() implies newline_free(#[trigger] core[i]) by {
                    assert(core[i] == kept1[i]);
                }
            }
            lemma_lines_of_joined(core, wanted);
            assert(once =~= if wanted {
                joined(core, newline()) + newline()
            } else {
                joined(core, newline())
            });
            assert(drawn_from(lines2, core));
            assert forall|i: int| 0 <= i < lines2.len() implies !marked(marks2, i) by {
                if strip {
                    assert(is_from(lines2[i], core));
                    let j = choose|j: int|
                        0 <= j < core.len() && (lines2[i] == #[trigger] core[j] || lines2[i]
                            == strip_cr(core[j]));
                    assert(core[j] == kept1[j]);
                    let k = choose|k: int|
                        0 <= k < lines1.len() && !dropped(marks1, present1, k) && kept1[j]
                            == lines1[k];
                    assert(!marked(marks1, k));
                    assert(!is_path_comment(style, lines1[k]));
                    lemma_trimmed_strip_cr(core[j]);
                    assert(!is_path_comment(style, lines2[i]));
                }
            }
            lemma_kept_lines_all(lines2, marks2, lines2.len());
            assert(lines2.take(lines2.len() as int) =~= lines2);
            assert(assembled_text(once, header, marks2, true) == once);
        }
    }
}

/// The rewrite that a verdict carries, if it carries one.
pub open spec fn rewrite_in(verdict: VerdictView) -> Option<RewriteView> {
    match verdict {
        VerdictView::Unchanged(rewrite) => Some(rewrite),
        VerdictView::WouldWrite(rewrite) => Some(rewrite),
        VerdictView::Write(rewrite) => Some(rewrite),
        _ => None,
    }
}

/// The processor with the dry run switched on or off.
pub open spec fn with_dry_run(cli: CliView, dry_run: bool) -> CliView {
    CliView { args: Args { dry_run, ..cli.args }, ..cli }
}

/// A dry run decides on the same rewrite as a real run, in clean mode as in
/// every other; it never asks for a file to be written, and a real run never
/// holds a change back.
pub proof fn lemma_dry_run_same_rewrite(cli: CliView, path: Seq<char>, input: FileInputView)
    ensures
        rewrite_in(verdict_of(with_dry_run(cli, true), path, input)) == rewrite_in(
            verdict_of(with_dry_run(cli, false), path, input),
        ),
        !(verdict_of(with_dry_run(cli, true), path, input) is Write),
        !(verdict_of(with_dry_run(cli, false), path, input) is WouldWrite),
{
}

/// Running the processor again on what it wrote changes nothing: where no
/// header is being cleaned away and the path holds no line feed, the text of
/// every rewrite is a text that the processor leaves as it is; with stripping
/// on, but for a text that holds a carriage return before a line feed after
/// its first line.
pub proof fn lemma_second_run_unchanged(cli: CliView, path: Seq<char>, content: Seq<char>)
    requires
        !cli.args.clean,
        !has_char(relative_path(path, cli.base_dir), '\n'),
        rewrite_in(verdict_of(cli, path, FileInputView::Text(content))) is Some,
        cli.args.strip ==> !has_cr_lf(
            after_first_line(
                rewrite_in(verdict_of(cli, path, FileInputView::Text(content)))->Some_0.content,
            ),
        ),
    ensures
        verdict_of(
            cli,
            path,
            FileInputView::Text(
                rewrite_in(verdict_of(cli, path, FileInputView::Text(content)))->Some_0.content,
            ),
        ) is Unchanged,
        rewrite_in(
            verdict_of(
                cli,
                path,
                FileInputView::Text(
                    rewrite_in(
                        verdict_of(cli, path, FileInputView::Text(content)),
                    )->Some_0.content,
                ),
            ),
        )->Some_0.content == rewrite_in(
            verdict_of(cli, path, FileInputView::Text(content)),
        )->Some_0.content,
{
    let style = style_for(cli, path)->Some_0;
    let header = header_for(cli, path, style);
    let strip = cli.args.strip;
    lemma_canonical_header_one_line(style, relative_path(path, cli.base_dir));
    lemma_idempotent(content, header, style, strip);
    let lines = lines_of(content);
    if !strip && !short_circuits(lines, header, strip) {
        let marks = stale_marks(style, lines, header_present(lines, header), strip);
        lemma_assembled_content(content, header, marks, false);
        lemma_assembled_begins_with_header(content, header, marks);
    }
}

} // verus!
