//! The names of the directories that are passed over: a built-in list, and
//! the plain names found in a `.gitignore`.

use crate::text::{
    contains_char, copy_range, first_hit, has_char, is_char, lemma_first_hit_is, lines_of,
    split_lines, to_chars, to_string, trim, trimmed, views,
};
use vstd::hash_set::StringHashSet;
use vstd::prelude::*;

verus! {

/// The built-in list: one name per line; a line that starts with `#` is a
/// comment.
pub const DEFAULT_IGNORE_CONFIG: &'static str = "\
# Version control\n\
.git\n\
.hg\n\
.svn\n\
\n\
# Dependencies\n\
node_modules\n\
bower_components\n\
\n\
# Build output\n\
target\n\
build\n\
dist\n\
out\n\
\n\
# Python\n\
venv\n\
.venv\n\
__pycache__\n\
.tox\n\
.mypy_cache\n\
.pytest_cache\n\
\n\
# Tools and editors\n\
.idea\n\
.vscode\n\
.gradle\n\
.cache\n\
.next\n\
.nuxt\n\
coverage\n\
";

/// The name that a line of the built-in list gives, if any: the line without
/// whitespace at its ends, unless that is empty or starts with `#`.
pub open spec fn default_entry(line: Seq<char>) -> Option<Seq<char>> {
    let name = trimmed(line);
    if name.len() > 0 && name[0] != '#' {
        Some(name)
    } else {
        None
    }
}

/// Whether the rule is more than a plain name: it holds a wildcard, a
/// character class, a negation or an escape.
pub open spec fn is_pattern_rule(rule: Seq<char>) -> bool {
    has_char(rule, '*') || has_char(rule, '?') || has_char(rule, '[') || has_char(rule, '!')
        || has_char(rule, '\\')
}

/// The name that a line of a `.gitignore` gives, if any. What follows a `#` is
/// a comment; the rest, without whitespace at its ends, is the rule. A rule
/// that is more than a plain name gives nothing. One `/` at the end of the
/// rule does not belong to the name.
pub open spec fn gitignore_entry(line: Seq<char>) -> Option<Seq<char>> {
    let rule = trimmed(line.take(first_hit(line, is_char('#')) as int));
    let name = if rule.len() > 0 && rule.last() == '/' {
        rule.drop_last()
    } else {
        rule
    };
    if rule.len() == 0 || is_pattern_rule(rule) || name.len() == 0 {
        None
    } else {
        Some(name)
    }
}

/// What a line gives, read as a line of a `.gitignore` or of the built-in
/// list.
pub open spec fn entry_of(line: Seq<char>, gitignore: bool) -> Option<Seq<char>> {
    if gitignore {
        gitignore_entry(line)
    } else {
        default_entry(line)
    }
}

/// The names that the lines give.
pub open spec fn names_from(lines: Seq<Seq<char>>, gitignore: bool) -> Set<Seq<char>>
    decreases lines.len(),
{
    if lines.len() == 0 {
        Set::empty()
    } else {
        let before = names_from(lines.drop_last(), gitignore);
        match entry_of(lines.last(), gitignore) {
            Some(name) => before.insert(name),
            None => before,
        }
    }
}

/// The names to pass over: those of the built-in list, and with them those of
/// the `.gitignore` where one is given.
pub open spec fn ignored_names(defaults: Seq<char>, gitignore: Option<Seq<char>>) -> Set<
    Seq<char>,
> {
    match gitignore {
        Some(text) => names_from(lines_of(defaults), false) + names_from(lines_of(text), true),
        None => names_from(lines_of(defaults), false),
    }
}

/// The text of an optional string.
pub open spec fn text_of(s: Option<&str>) -> Option<Seq<char>> {
    match s {
        Some(t) => Some(t@),
        None => None,
    }
}

/// The name that a line of the built-in list gives, if any.
pub fn parse_default_line(line: &Vec<char>) -> (r: Option<Vec<char>>)
    ensures
        r is Some == default_entry(line@) is Some,
        r matches Some(name) ==> name@ == default_entry(line@)->Some_0,
{
    let name = trim(line);
    if name.len() > 0 && name[0] != '#' {
        Some(name)
    } else {
        None
    }
}

/// The name that a line of a `.gitignore` gives, if any.
pub fn parse_gitignore_line(line: &Vec<char>) -> (r: Option<Vec<char>>)
    ensures
        r is Some == gitignore_entry(line@) is Some,
        r matches Some(name) ==> name@ == gitignore_entry(line@)->Some_0,
{
    let mut cut: usize = 0;
    while cut < line.len() && line[cut] != '#'
        invariant
            cut <= line.len(),
            forall|j: int| 0 <= j < cut ==> line[j] != '#',
        decreases line.len() - cut,
    {
        cut += 1;
    }
    proof {
        lemma_first_hit_is(line@, is_char('#'), cut as int);
        assert(line@.subrange(0, cut as int) == line@.take(cut as int));
    }
    let rule = trim(&copy_range(line, 0, cut));
    if rule.len() == 0 || contains_char(&rule, '*') || contains_char(&rule, '?') || contains_char(
        &rule,
        '[',
    ) || contains_char(&rule, '!') || contains_char(&rule, '\\') {
        return None;
    }
    let end = if rule[rule.len() - 1] == '/' {
        rule.len() - 1
    } else {
        rule.len()
    };
    if end == 0 {
        return None;
    }
    assert(rule@.subrange(0, rule@.len() as int) == rule@);
    assert(rule@.subrange(0, rule@.len() - 1) == rule@.drop_last());
    Some(copy_range(&rule, 0, end))
}

/// Adds to `names` what the lines of `text` give.
fn add_names(names: &mut StringHashSet, text: &str, gitignore: bool)
    ensures
        final(names)@ == old(names)@ + names_from(lines_of(text@), gitignore),
{
    let lines = split_lines(&to_chars(text));
    let ghost all = views(lines@);
    let mut i: usize = 0;
    assert(all.take(0) =~= Seq::<Seq<char>>::empty());
    assert(names@ =~= old(names)@ + names_from(all.take(0), gitignore));
    while i < lines.len()
        invariant
            i <= lines.len(),
            all == views(lines@),
            names@ == old(names)@ + names_from(all.take(i as int), gitignore),
        decreases lines.len() - i,
    {
        proof {
            assert(all.take(i + 1).drop_last() =~= all.take(i as int));
            assert(all.take(i + 1).last() == lines[i as int]@);
        }
        let entry = if gitignore {
            parse_gitignore_line(&lines[i])
        } else {
            parse_default_line(&lines[i])
        };
        if let Some(name) = entry {
            names.insert(to_string(&name));
            assert(names@ =~= old(names)@ + names_from(all.take(i + 1), gitignore));
        }
        i += 1;
    }
    assert(all.take(lines.len() as int) == all);
}

/// The names of the directories to pass over: those of the built-in list, and
/// with them the plain names in the text of a `.gitignore`, where one is
/// given.
pub fn load_ignored_dirs(gitignore: Option<&str>) -> (names: StringHashSet)
    ensures
        names@ == ignored_names(DEFAULT_IGNORE_CONFIG@, text_of(gitignore)),
{
    let mut names = StringHashSet::new();
    add_names(&mut names, DEFAULT_IGNORE_CONFIG, false);
    assert(names@ =~= names_from(lines_of(DEFAULT_IGNORE_CONFIG@), false));
    if let Some(text) = gitignore {
        add_names(&mut names, text, true);
    }
    names
}

} // verus!
