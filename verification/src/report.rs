//! What is reported of a file: the lines that a console shows, with the
//! colours of a diff. Nothing is printed here.

use crate::cli::{Verdict, VerdictView};
use crate::comments::Style;
use crate::normalize::{Change, Rewrite, RewriteView};
use crate::text::{append, string_views, to_chars, to_string};
use vstd::prelude::*;

verus! {

/// `s` as a line that was added: green, after a plus sign.
pub open spec fn added_text(s: Seq<char>) -> Seq<char> {
    "\x1b[32m+ "@ + s + "\x1b[0m"@
}

/// `s` as a line that was removed: red, after a minus sign.
pub open spec fn removed_text(s: Seq<char>) -> Seq<char> {
    "\x1b[31m- "@ + s + "\x1b[0m"@
}

/// `s` as a line that stays: yellow, after a space.
pub open spec fn no_change_text(s: Seq<char>) -> Seq<char> {
    "\x1b[33m "@ + s + "\x1b[0m"@
}

/// The start of the first line of every report on a file.
pub open spec fn processed_text(path: Seq<char>) -> Seq<char> {
    "Processed "@ + path + " "@
}

/// Each of the lines as a line that was removed.
pub open spec fn removed_texts(lines: Seq<Seq<char>>) -> Seq<Seq<char>> {
    Seq::new(lines.len(), |i: int| removed_text(lines[i]))
}

/// The report on a rewrite: one line for a file that stays as it is; for a
/// file that changes, the header on the first line where no line was removed,
/// else the removed lines and then the header, each on a line of its own; an
/// empty line ends the report on a change.
pub open spec fn rewrite_report(path: Seq<char>, rewrite: RewriteView) -> Seq<Seq<char>> {
    let start = processed_text(path);
    match rewrite.change {
        Change::Unchanged => seq![start + no_change_text(rewrite.header)],
        Change::HeaderAdded => seq![start + added_text(rewrite.header), Seq::empty()],
        Change::HeaderReplaced => seq![start] + removed_texts(rewrite.removed) + seq![
            added_text(rewrite.header),
            Seq::empty(),
        ],
        Change::HeaderRemoved => if rewrite.removed.len() == 0 {
            seq![start + removed_text(rewrite.header), Seq::empty()]
        } else {
            seq![start] + removed_texts(rewrite.removed) + seq![Seq::empty()]
        },
    }
}

/// The report on a verdict. A file that is none of ours is not reported; a
/// skipped file is reported on one line with the reason.
pub open spec fn verdict_report(path: Seq<char>, verdict: VerdictView) -> Seq<Seq<char>> {
    match verdict {
        VerdictView::Ineligible => Seq::empty(),
        VerdictView::Unreadable => seq!["Skipped "@ + path + ": could not be read"@],
        VerdictView::Undecodable => seq![
            processed_text(path) + no_change_text("Skipped non-UTF8 file"@),
        ],
        VerdictView::ConfigError => seq![
            "Skipped "@ + path + ": no pattern for its comment style"@,
        ],
        VerdictView::Unchanged(rewrite) => rewrite_report(path, rewrite),
        VerdictView::WouldWrite(rewrite) => rewrite_report(path, rewrite),
        VerdictView::Write(rewrite) => rewrite_report(path, rewrite),
    }
}

/// The three texts one after the other.
fn concat(a: &str, b: &str, c: &str) -> (r: Vec<char>)
    ensures
        r@ == a@ + b@ + c@,
{
    let mut r = to_chars(a);
    append(&mut r, &to_chars(b));
    append(&mut r, &to_chars(c));
    r
}

/// `s` as a line that was added.
pub fn added(s: &str) -> (r: String)
    ensures
        r@ == added_text(s@),
{
    to_string(&concat("\x1b[32m+ ", s, "\x1b[0m"))
}

/// `s` as a line that was removed.
pub fn removed(s: &str) -> (r: String)
    ensures
        r@ == removed_text(s@),
{
    to_string(&concat("\x1b[31m- ", s, "\x1b[0m"))
}

/// `s` as a line that stays.
pub fn no_change(s: &str) -> (r: String)
    ensures
        r@ == no_change_text(s@),
{
    to_string(&concat("\x1b[33m ", s, "\x1b[0m"))
}

/// The start of the first line of a report, followed by `rest`.
fn first_line(path: &str, rest: &str) -> (r: String)
    ensures
        r@ == processed_text(path@) + rest@,
{
    let mut line = concat("Processed ", path, " ");
    append(&mut line, &to_chars(rest));
    to_string(&line)
}

/// The lines that report a rewrite of the file at `path`.
pub fn report_rewrite(path: &str, rewrite: &Rewrite) -> (lines: Vec<String>)
    ensures
        string_views(lines@) == rewrite_report(path@, rewrite@),
{
    let mut lines: Vec<String> = Vec::new();
    let header = rewrite.header.as_str();
    proof {
        reveal_strlit("");
    }
    match rewrite.change {
        Change::Unchanged => {
            lines.push(first_line(path, no_change(header).as_str()));
            assert(string_views(lines@) =~= rewrite_report(path@, rewrite@));
        },
        Change::HeaderAdded => {
            lines.push(first_line(path, added(header).as_str()));
            lines.push(String::new());
            assert(string_views(lines@) =~= rewrite_report(path@, rewrite@));
        },
        Change::HeaderReplaced => {
            lines.push(first_line(path, ""));
            assert(lines[0]@ =~= processed_text(path@));
            assert(string_views(lines@) =~= seq![processed_text(path@)]);
            push_removed(&mut lines, &rewrite.removed);
            lines.push(added(header));
            lines.push(String::new());
            assert(string_views(lines@) =~= rewrite_report(path@, rewrite@));
        },
        Change::HeaderRemoved => {
            if rewrite.removed.len() == 0 {
                lines.push(first_line(path, removed(header).as_str()));
                lines.push(String::new());
                assert(string_views(lines@) =~= rewrite_report(path@, rewrite@));
            } else {
                lines.push(first_line(path, ""));
                assert(lines[0]@ =~= processed_text(path@));
                assert(string_views(lines@) =~= seq![processed_text(path@)]);
                push_removed(&mut lines, &rewrite.removed);
                lines.push(String::new());
                assert(string_views(lines@) =~= rewrite_report(path@, rewrite@));
            }
        },
    }
    lines
}

/// Appends each of `removed` as a line that was removed.
fn push_removed(lines: &mut Vec<String>, taken: &Vec<String>)
    ensures
        string_views(final(lines)@) == string_views(old(lines)@) + removed_texts(
            string_views(taken@),
        ),
{
    let mut i: usize = 0;
    assert(string_views(lines@) =~= string_views(old(lines)@) + removed_texts(
        string_views(taken@),
    ).take(0));
    while i < taken.len()
        invariant
            i <= taken.len(),
            string_views(lines@) == string_views(old(lines)@) + removed_texts(
                string_views(taken@),
            ).take(i as int),
        decreases taken.len() - i,
    {
        let ghost before = string_views(lines@);
        let line = removed(taken[i].as_str());
        lines.push(line);
        assert(string_views(lines@) =~= before.push(removed_text(taken[i as int]@)));
        assert(before.push(removed_text(taken[i as int]@)) =~= string_views(old(lines)@)
            + removed_texts(string_views(taken@)).take(i + 1));
        i += 1;
    }
    assert(removed_texts(string_views(taken@)).take(taken.len() as int) =~= removed_texts(
        string_views(taken@),
    ));
}

/// The lines that report what was decided for the file at `path`.
pub fn report(path: &str, verdict: &Verdict) -> (lines: Vec<String>)
    ensures
        string_views(lines@) == verdict_report(path@, verdict@),
{
    match verdict {
        Verdict::Ineligible => {
            let lines: Vec<String> = Vec::new();
            assert(string_views(lines@) =~= Seq::<Seq<char>>::empty());
            lines
        },
        Verdict::Unreadable => {
            let mut lines: Vec<String> = Vec::new();
            lines.push(to_string(&concat("Skipped ", path, ": could not be read")));
            assert(string_views(lines@) =~= verdict_report(path@, verdict@));
            lines
        },
        Verdict::Undecodable => {
            let mut lines: Vec<String> = Vec::new();
            lines.push(first_line(path, no_change("Skipped non-UTF8 file").as_str()));
            assert(string_views(lines@) =~= verdict_report(path@, verdict@));
            lines
        },
        Verdict::ConfigError => {
            let mut lines: Vec<String> = Vec::new();
            lines.push(to_string(&concat("Skipped ", path, ": no pattern for its comment style")));
            assert(string_views(lines@) =~= verdict_report(path@, verdict@));
            lines
        },
        Verdict::Unchanged(rewrite) => report_rewrite(path, rewrite),
        Verdict::WouldWrite(rewrite) => report_rewrite(path, rewrite),
        Verdict::Write(rewrite) => report_rewrite(path, rewrite),
    }
}

/// The line that lists one extension: the extension after a dot, then the
/// delimiters of its style.
pub open spec fn extension_line(extension: Seq<char>, style: Style) -> Seq<char> {
    "  ."@ + extension + ": "@ + style.prefix() + style.suffix()
}

/// The listing of the extensions that are processed: a heading, one line for
/// each pair, and an empty line; or one line that says that there are none.
pub open spec fn extension_report(pairs: Seq<(String, Style)>) -> Seq<Seq<char>> {
    if pairs.len() == 0 {
        seq!["No file extensions configured."@]
    } else {
        seq!["File extensions that will be processed:"@] + extension_lines(pairs) + seq![
            Seq::empty(),
        ]
    }
}

/// The line of each pair, in order.
pub open spec fn extension_lines(pairs: Seq<(String, Style)>) -> Seq<Seq<char>> {
    Seq::new(pairs.len(), |i: int| extension_line(pairs[i].0@, pairs[i].1))
}

/// The lines that list the given extensions with their styles.
pub fn report_extensions(pairs: &Vec<(String, Style)>) -> (lines: Vec<String>)
    ensures
        string_views(lines@) == extension_report(pairs@),
{
    let mut lines: Vec<String> = Vec::new();
    if pairs.len() == 0 {
        lines.push(to_string(&to_chars("No file extensions configured.")));
        assert(string_views(lines@) =~= extension_report(pairs@));
        return lines;
    }
    lines.push(to_string(&to_chars("File extensions that will be processed:")));
    let ghost listed = extension_lines(pairs@);
    let ghost head = string_views(lines@);
    let mut i: usize = 0;
    assert(string_views(lines@) =~= head + listed.take(0));
    while i < pairs.len()
        invariant
            i <= pairs.len(),
            head == seq!["File extensions that will be processed:"@],
            listed == extension_lines(pairs@),
            string_views(lines@) == head + listed.take(i as int),
        decreases pairs.len() - i,
    {
        let ghost before = string_views(lines@);
        let (prefix, suffix) = pairs[i].1.delimiters();
        let mut line = concat("  .", pairs[i].0.as_str(), ": ");
        append(&mut line, &to_chars(prefix));
        append(&mut line, &to_chars(suffix));
        assert(line@ =~= listed[i as int]);
        lines.push(to_string(&line));
        assert(string_views(lines@) =~= before.push(listed[i as int]));
        assert(before.push(listed[i as int]) =~= head + listed.take(i + 1));
        i += 1;
    }
    assert(listed.take(pairs.len() as int) =~= listed);
    let ghost before = string_views(lines@);
    lines.push(String::new());
    assert(string_views(lines@) =~= before.push(Seq::empty()));
    assert(string_views(lines@) =~= extension_report(pairs@));
    lines
}

} // verus!
