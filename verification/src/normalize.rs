//! The header normalizer: given a file's text and the header it should carry,
//! decide whether the header is already there, which lines are stale path
//! comments, and what the file's text becomes.

use crate::comments::Style;
use crate::pattern::{is_path_comment, PathCommentPattern};
use crate::text::{
    copy_range, join, joined, lines_of, newline, same, split_lines, string_views, strip_newlines, to_chars,
    to_string, to_strings, trim, trimmed, truncate_newlines, views,
};
use vstd::prelude::*;

verus! {

/// What became of a file's header.
#[derive(Copy, Clone, PartialEq, Eq, Debug, Structural)]
pub enum Change {
    /// The text stays as it is, byte for byte.
    Unchanged,
    /// The header was put in front; no line was removed.
    HeaderAdded,
    /// The header was put in front and stale path comments were removed.
    HeaderReplaced,
    /// Clean mode took path comments out and put no header in.
    HeaderRemoved,
}

/// The plan for rewriting one file, and its result: the header, whether it
/// was there, which lines are stale, what happened, and the file's new text.
#[derive(Debug)]
pub struct Rewrite {
    /// What became of the header.
    pub change: Change,
    /// The header that the file should carry.
    pub header: String,
    /// Whether the first line was the header already.
    pub header_present: bool,
    /// The places of the stale lines, counted from 0, in rising order.
    pub stale_lines: Vec<usize>,
    /// The stale lines that were taken out, as they stood, in order.
    pub removed: Vec<String>,
    /// The file's text after the change; the text as it was where nothing
    /// changed.
    pub content: String,
}

/// A `Rewrite` with its texts as sequences of characters.
pub struct RewriteView {
    pub change: Change,
    pub header: Seq<char>,
    pub header_present: bool,
    pub stale_lines: Seq<usize>,
    pub removed: Seq<Seq<char>>,
    pub content: Seq<char>,
}

impl View for Rewrite {
    type V = RewriteView;

    open spec fn view(&self) -> RewriteView {
        RewriteView {
            change: self.change,
            header: self.header@,
            header_present: self.header_present,
            stale_lines: self.stale_lines@,
            removed: string_views(self.removed@),
            content: self.content@,
        }
    }
}

/// Whether the first line is the header, whitespace at the ends of either set
/// aside.
pub open spec fn header_present(lines: Seq<Seq<char>>, header: Seq<char>) -> bool {
    lines.len() > 0 && trimmed(lines[0]) == trimmed(header)
}

/// Whether the file is left alone without looking further: the header is
/// there, and stripping is off. With stripping on, the other lines are looked
/// at even where the header is there.
pub open spec fn short_circuits(lines: Seq<Seq<char>>, header: Seq<char>, strip: bool) -> bool {
    header_present(lines, header) && !strip
}

/// For each line, whether it is a stale path comment that the mode strips:
/// stripping is on, the line is a path comment of the style, and it is not a
/// first line that is the header already.
pub open spec fn stale_marks(style: Style, lines: Seq<Seq<char>>, present: bool, strip: bool) -> Seq<
    bool,
> {
    Seq::new(lines.len(), |i: int| strip && !(i == 0 && present) && is_path_comment(style, lines[i]))
}

/// Whether line `i` is marked. A line without a mark is not.
pub open spec fn marked(marks: Seq<bool>, i: int) -> bool {
    0 <= i < marks.len() && marks[i]
}

/// Whether line `i` leaves the text: it is marked, or it is the first line and
/// the header that the new first line supersedes.
pub open spec fn dropped(marks: Seq<bool>, present: bool, i: int) -> bool {
    marked(marks, i) || (i == 0 && present)
}

/// The lines among the first `n` that stay, in order.
pub open spec fn kept_lines(lines: Seq<Seq<char>>, marks: Seq<bool>, present: bool, n: nat) -> Seq<
    Seq<char>,
>
    decreases n,
{
    if n == 0 {
        Seq::empty()
    } else {
        let before = kept_lines(lines, marks, present, (n - 1) as nat);
        if dropped(marks, present, n - 1) {
            before
        } else {
            before.push(lines[n - 1])
        }
    }
}

/// The marked lines among the first `n`, in order.
pub open spec fn marked_lines(lines: Seq<Seq<char>>, marks: Seq<bool>, n: nat) -> Seq<Seq<char>>
    decreases n,
{
    if n == 0 {
        Seq::empty()
    } else {
        let before = marked_lines(lines, marks, (n - 1) as nat);
        if marked(marks, n - 1) {
            before.push(lines[n - 1])
        } else {
            before
        }
    }
}

/// The places of the marked lines among the first `n`, in rising order.
pub open spec fn marked_places(marks: Seq<bool>, n: nat) -> Seq<usize>
    decreases n,
{
    if n == 0 {
        Seq::empty()
    } else {
        let before = marked_places(marks, (n - 1) as nat);
        if marked(marks, n - 1) {
            before.push((n - 1) as usize)
        } else {
            before
        }
    }
}

/// Whether the new text must end with a line feed: the old one did, or was
/// empty.
pub open spec fn wants_newline(content: Seq<char>) -> bool {
    content.len() == 0 || content.last() == '\n'
}

/// `text` with the end that the policy asks for: exactly one line feed, or
/// none.
pub open spec fn finished(text: Seq<char>, newline_wanted: bool) -> Seq<char> {
    if newline_wanted {
        strip_newlines(text).push('\n')
    } else {
        strip_newlines(text)
    }
}

/// The lines of the new text: the header first unless in clean mode, then the
/// lines that stay.
pub open spec fn new_lines(
    content: Seq<char>,
    header: Seq<char>,
    marks: Seq<bool>,
    clean: bool,
) -> Seq<Seq<char>> {
    let lines = lines_of(content);
    let body = kept_lines(lines, marks, header_present(lines, header), lines.len());
    if clean {
        body
    } else {
        seq![header] + body
    }
}

/// The new text for the given marks: the new lines joined by line feeds, with
/// the end that the policy asks for.
pub open spec fn assembled_text(
    content: Seq<char>,
    header: Seq<char>,
    marks: Seq<bool>,
    clean: bool,
) -> Seq<char> {
    finished(joined(new_lines(content, header, marks, clean), newline()), wants_newline(content))
}

/// The outcome for the given marks. A new text equal to the old one is no
/// change, whatever was computed on the way.
pub open spec fn assembled(
    content: Seq<char>,
    header: Seq<char>,
    marks: Seq<bool>,
    clean: bool,
) -> RewriteView {
    let lines = lines_of(content);
    let text = assembled_text(content, header, marks, clean);
    let removed = marked_lines(lines, marks, lines.len());
    let header_present = header_present(lines, header);
    let stale_lines = marked_places(marks, lines.len());
    if text == content {
        RewriteView {
            change: Change::Unchanged,
            header,
            header_present,
            stale_lines,
            removed: Seq::empty(),
            content,
        }
    } else {
        RewriteView {
            change: if clean {
                Change::HeaderRemoved
            } else if removed.len() == 0 {
                Change::HeaderAdded
            } else {
                Change::HeaderReplaced
            },
            header,
            header_present,
            stale_lines,
            removed,
            content: text,
        }
    }
}

/// The outcome for a file that is left alone because its header is there.
pub open spec fn settled(content: Seq<char>, header: Seq<char>) -> RewriteView {
    RewriteView {
        change: Change::Unchanged,
        header,
        header_present: true,
        stale_lines: Seq::empty(),
        removed: Seq::empty(),
        content,
    }
}

/// The outcome of normalizing `content` towards `header` in the given style
/// and mode.
pub open spec fn normalized(
    content: Seq<char>,
    header: Seq<char>,
    style: Style,
    strip: bool,
    clean: bool,
) -> RewriteView {
    let lines = lines_of(content);
    if short_circuits(lines, header, strip) {
        settled(content, header)
    } else {
        assembled(
            content,
            header,
            stale_marks(style, lines, header_present(lines, header), strip),
            clean,
        )
    }
}

/// Whether the first of `lines` is `header`, whitespace at the ends of either
/// set aside.
pub fn header_matches(lines: &Vec<Vec<char>>, header: &Vec<char>) -> (r: bool)
    ensures
        r == header_present(views(lines@), header@),
{
    if lines.len() == 0 {
        return false;
    }
    let first = trim(&lines[0]);
    let wanted = trim(header);
    same(&first, &wanted)
}

/// Marks the stale path comments among `lines`.
pub fn mark_stale(
    lines: &Vec<Vec<char>>,
    present: bool,
    pattern: &PathCommentPattern,
    strip: bool,
) -> (marks: Vec<bool>)
    ensures
        marks@ == stale_marks(pattern.style(), views(lines@), present, strip),
{
    let mut marks: Vec<bool> = Vec::new();
    let mut i: usize = 0;
    while i < lines.len()
        invariant
            i <= lines.len(),
            marks.len() == i,
            forall|j: int|
                0 <= j < i ==> #[trigger] marks[j] == (strip && !(j == 0 && present)
                    && is_path_comment(pattern.style(), lines[j]@)),
        decreases lines.len() - i,
    {
        let stale = strip && !(i == 0 && present) && pattern.matches(&lines[i]);
        marks.push(stale);
        i += 1;
    }
    assert(marks@ =~= stale_marks(pattern.style(), views(lines@), present, strip));
    marks
}

/// Builds the outcome from the lines of the text and their marks.
fn assemble_lines(
    content: &Vec<char>,
    header: &Vec<char>,
    lines: &Vec<Vec<char>>,
    present: bool,
    marks: &Vec<bool>,
    clean: bool,
) -> (r: Rewrite)
    requires
        views(lines@) == lines_of(content@),
        present == header_present(lines_of(content@), header@),
    ensures
        r@ == assembled(content@, header@, marks@, clean),
{
    let ghost all = views(lines@);
    let mut kept: Vec<Vec<char>> = Vec::new();
    let mut removed: Vec<Vec<char>> = Vec::new();
    let mut stale_lines: Vec<usize> = Vec::new();
    if !clean {
        kept.push(copy_range(header, 0, header.len()));
    }
    assert(header@.subrange(0, header@.len() as int) == header@);
    let ghost lead: Seq<Seq<char>> = if clean {
        Seq::empty()
    } else {
        seq![header@]
    };
    assert(views(kept@) =~= lead + kept_lines(all, marks@, present, 0));
    assert(views(removed@) =~= marked_lines(all, marks@, 0));
    assert(stale_lines@ =~= marked_places(marks@, 0));
    let mut i: usize = 0;
    while i < lines.len()
        invariant
            i <= lines.len(),
            all == views(lines@),
            views(kept@) == lead + kept_lines(all, marks@, present, i as nat),
            views(removed@) == marked_lines(all, marks@, i as nat),
            stale_lines@ == marked_places(marks@, i as nat),
        decreases lines.len() - i,
    {
        let is_marked = i < marks.len() && marks[i];
        assert(lines[i as int]@.subrange(0, lines[i as int]@.len() as int) == lines[i as int]@);
        let ghost removed_before = views(removed@);
        if is_marked {
            removed.push(copy_range(&lines[i], 0, lines[i].len()));
            stale_lines.push(i);
            assert(views(removed@) =~= removed_before.push(lines[i as int]@));
        }
        let ghost before = kept_lines(all, marks@, present, i as nat);
        let ghost kept_before = views(kept@);
        assert(all[i as int] == lines[i as int]@);
        if !(is_marked || (i == 0 && present)) {
            kept.push(copy_range(&lines[i], 0, lines[i].len()));
            assert(views(kept@) =~= kept_before.push(all[i as int]));
            assert(kept_before.push(all[i as int]) =~= lead + before.push(all[i as int]));
        }
        i += 1;
    }
    let mut sep: Vec<char> = Vec::new();
    sep.push('\n');
    assert(sep@ =~= newline());
    let mut text = join(&kept, &sep);
    truncate_newlines(&mut text);
    if content.len() == 0 || content[content.len() - 1] == '\n' {
        text.push('\n');
    }
    assert(views(kept@) == new_lines(content@, header@, marks@, clean));
    assert(text@ == assembled_text(content@, header@, marks@, clean));
    if same(&text, content) {
        let r = Rewrite {
            change: Change::Unchanged,
            header: to_string(header),
            header_present: present,
            stale_lines,
            removed: Vec::new(),
            content: to_string(content),
        };
        assert(r@.removed =~= Seq::<Seq<char>>::empty());
        r
    } else {
        let change = if clean {
            Change::HeaderRemoved
        } else if removed.len() == 0 {
            Change::HeaderAdded
        } else {
            Change::HeaderReplaced
        };
        Rewrite {
            change,
            header: to_string(header),
            header_present: present,
            stale_lines,
            removed: to_strings(&removed),
            content: to_string(&text),
        }
    }
}

/// Builds the new text of a file from the marks on its lines: `marks[i]` says
/// whether line `i` is taken out as stale; a line without a mark stays.
pub fn assemble(content: &str, header: &str, marks: &Vec<bool>, clean: bool) -> (r: Rewrite)
    ensures
        r@ == assembled(content@, header@, marks@, clean),
{
    let text = to_chars(content);
    let wanted = to_chars(header);
    let lines = split_lines(&text);
    let present = header_matches(&lines, &wanted);
    assemble_lines(&text, &wanted, &lines, present, marks, clean)
}

/// Normalizes one file: `content` is its text, `header` the first line it
/// should carry, `pattern` recognises the path comments of its style.
pub fn normalize(
    content: &str,
    header: &str,
    pattern: &PathCommentPattern,
    strip: bool,
    clean: bool,
) -> (r: Rewrite)
    ensures
        r@ == normalized(content@, header@, pattern.style(), strip, clean),
{
    let text = to_chars(content);
    let wanted = to_chars(header);
    let lines = split_lines(&text);
    let present = header_matches(&lines, &wanted);
    if present && !strip {
        return unchanged(content, header);
    }
    let marks = mark_stale(&lines, present, pattern, strip);
    assemble_lines(&text, &wanted, &lines, present, &marks, clean)
}

/// Whether the file is left alone without looking further.
pub fn is_settled(content: &str, header: &str, strip: bool) -> (r: bool)
    ensures
        r == short_circuits(lines_of(content@), header@, strip),
{
    if strip {
        return false;
    }
    let lines = split_lines(&to_chars(content));
    header_matches(&lines, &to_chars(header))
}

/// The outcome for a file that is left alone because its header is there.
pub fn unchanged(content: &str, header: &str) -> (r: Rewrite)
    ensures
        r@ == settled(content@, header@),
{
    let r = Rewrite {
        change: Change::Unchanged,
        header: to_string(&to_chars(header)),
        header_present: true,
        stale_lines: Vec::new(),
        removed: Vec::new(),
        content: to_string(&to_chars(content)),
    };
    assert(r@.removed =~= Seq::<Seq<char>>::empty());
    r
}

} // verus!
