//! Comment styles: the closed set of delimiter pairs in which a path header
//! can be written.

use crate::text::{
    append, copy_range, join, joined, lemma_lex_total, lemma_lex_transitive, lex_le, lex_order,
    lines_of, same, split_lines, split_whitespace, strip_leading, to_chars, to_string, trim,
    trim_leading, trimmed, views, words_of,
};
use vstd::hash_map::StringHashMap;
use vstd::prelude::*;

verus! {

/// A way of writing a one-line comment.
#[derive(Copy, Clone, PartialEq, Eq, PartialOrd, Ord, Debug, Hash, Structural)]
pub enum Style {
    /// `// text`
    Slash,
    /// `/* text */`
    SlashStar,
    /// `# text`
    Hash,
    /// `; text`
    Semi,
    /// `<!-- text -->`
    Xml,
    /// `-- text`
    DoubleDash,
    /// `% text`
    Percent,
}

/// The style that a configuration names by its bare delimiters.
pub open spec fn style_named(name: Seq<char>) -> Option<Style> {
    if name == "//"@ {
        Some(Style::Slash)
    } else if name == "/* */"@ {
        Some(Style::SlashStar)
    } else if name == "#"@ {
        Some(Style::Hash)
    } else if name == ";"@ {
        Some(Style::Semi)
    } else if name == "<!-- -->"@ {
        Some(Style::Xml)
    } else if name == "--"@ {
        Some(Style::DoubleDash)
    } else if name == "%"@ {
        Some(Style::Percent)
    } else {
        None
    }
}

/// The header that states `rel_path` in the given style: the style's prefix,
/// the path, the style's suffix, and nothing else.
pub open spec fn canonical_header(style: Style, rel_path: Seq<char>) -> Seq<char> {
    style.prefix() + rel_path + style.suffix()
}

impl Style {
    /// What opens a comment of this style, with the space that follows it.
    pub open spec fn prefix(self) -> Seq<char> {
        match self {
            Style::Slash => "// "@,
            Style::SlashStar => "/* "@,
            Style::Hash => "# "@,
            Style::Semi => "; "@,
            Style::Xml => "<!-- "@,
            Style::DoubleDash => "-- "@,
            Style::Percent => "% "@,
        }
    }

    /// What closes a comment of this style, with the space before it; empty
    /// for the styles that run to the end of the line.
    pub open spec fn suffix(self) -> Seq<char> {
        match self {
            Style::Slash => ""@,
            Style::SlashStar => " */"@,
            Style::Hash => ""@,
            Style::Semi => ""@,
            Style::Xml => " -->"@,
            Style::DoubleDash => ""@,
            Style::Percent => ""@,
        }
    }

    /// The style named by `name`, whitespace around the name set aside.
    pub fn from_name(name: &Vec<char>) -> (r: Option<Style>)
        ensures
            r == style_named(trimmed(name@)),
    {
        let name = trim(name);
        if same(&name, &to_chars("//")) {
            Some(Style::Slash)
        } else if same(&name, &to_chars("/* */")) {
            Some(Style::SlashStar)
        } else if same(&name, &to_chars("#")) {
            Some(Style::Hash)
        } else if same(&name, &to_chars(";")) {
            Some(Style::Semi)
        } else if same(&name, &to_chars("<!-- -->")) {
            Some(Style::Xml)
        } else if same(&name, &to_chars("--")) {
            Some(Style::DoubleDash)
        } else if same(&name, &to_chars("%")) {
            Some(Style::Percent)
        } else {
            None
        }
    }

    /// The style named by `s`, whitespace around the name set aside.
    pub fn from_str(s: &str) -> (r: Option<Style>)
        ensures
            r == style_named(trimmed(s@)),
    {
        Self::from_name(&to_chars(s))
    }

    /// The prefix and the suffix of this style.
    pub fn delimiters(&self) -> (r: (&'static str, &'static str))
        ensures
            r.0@ == self.prefix(),
            r.1@ == self.suffix(),
    {
        match self {
            Style::Slash => ("// ", ""),
            Style::SlashStar => ("/* ", " */"),
            Style::Hash => ("# ", ""),
            Style::Semi => ("; ", ""),
            Style::Xml => ("<!-- ", " -->"),
            Style::DoubleDash => ("-- ", ""),
            Style::Percent => ("% ", ""),
        }
    }

    /// The header that states `rel_path` in this style.
    pub fn header(&self, rel_path: &str) -> (r: String)
        ensures
            r@ == canonical_header(*self, rel_path@),
    {
        let (prefix, suffix) = self.delimiters();
        let mut line = to_chars(prefix);
        append(&mut line, &to_chars(rel_path));
        append(&mut line, &to_chars(suffix));
        to_string(&line)
    }
}

/// No style has an empty prefix, and no delimiter holds a line feed.
pub proof fn lemma_delimiters(style: Style)
    ensures
        style.prefix().len() > 0,
        forall|i: int| 0 <= i < style.prefix().len() ==> style.prefix()[i] != '\n',
        forall|i: int| 0 <= i < style.suffix().len() ==> style.suffix()[i] != '\n',
{
    reveal_strlit("// ");
    reveal_strlit("/* ");
    reveal_strlit("# ");
    reveal_strlit("; ");
    reveal_strlit("<!-- ");
    reveal_strlit("-- ");
    reveal_strlit("% ");
    reveal_strlit("");
    reveal_strlit(" */");
    reveal_strlit(" -->");
}

/// What `str::to_lowercase` makes of a text.
pub uninterp spec fn lowercased(s: Seq<char>) -> Seq<char>;

/// `str::to_lowercase` returns the lowercase equivalent of the text as a new
/// string; the result depends on the text alone.
pub assume_specification[ str::to_lowercase ](s: &str) -> (r: String)
    ensures
        r@ == lowercased(s@),
;

/// The registry of comment styles: for each known extension, in lower case
/// and without the dot, the style of its comments. A later entry for an
/// extension takes the place of an earlier one. Beside the table stand the
/// extensions in the order in which they were first entered, so that the
/// registry can be listed.
pub struct CommentConfig {
    table: StringHashMap<Style>,
    names: Vec<String>,
}

/// What a table holds for a key.
pub open spec fn lookup(table: Map<Seq<char>, Style>, extension: Seq<char>) -> Option<Style> {
    if table.contains_key(extension) {
        Some(table[extension])
    } else {
        None
    }
}

/// Whether the names are the extensions of the table, each once.
spec fn names_cover(table: Map<Seq<char>, Style>, names: Seq<String>) -> bool {
    &&& forall|extension: Seq<char>|
        table.contains_key(extension) <==> exists|i: int|
            0 <= i < names.len() && (#[trigger] names[i])@ == extension
    &&& forall|i: int, j: int|
        0 <= i < j < names.len() ==> (#[trigger] names[i])@ != (#[trigger] names[j])@
}

impl View for CommentConfig {
    type V = Map<Seq<char>, Style>;

    closed spec fn view(&self) -> Map<Seq<char>, Style> {
        self.table@
    }
}

impl CommentConfig {
    #[verifier::type_invariant]
    spec fn listed(self) -> bool {
        names_cover(self.table@, self.names@)
    }

    /// The registry without entries.
    pub fn new() -> (r: CommentConfig)
        ensures
            r@ == Map::<Seq<char>, Style>::empty(),
    {
        CommentConfig { table: StringHashMap::new(), names: Vec::new() }
    }

    /// Enters the style for the extension, in place of an earlier one.
    pub fn insert(&mut self, extension: &str, style: Style)
        ensures
            final(self)@ == old(self)@.insert(extension@, style),
    {
        let mut taken = CommentConfig::new();
        std::mem::swap(self, &mut taken);
        proof {
            use_type_invariant(&taken);
        }
        let CommentConfig { table, names } = taken;
        let mut table = table;
        let mut names = names;
        let ghost before = table@;
        let ghost listed = names@;
        let known = table.contains_key(extension);
        if !known {
            names.push(to_string(&to_chars(extension)));
        }
        table.insert(to_string(&to_chars(extension)), style);
        proof {
            let key = extension@;
            assert forall|k: Seq<char>| table@.contains_key(k) <==> exists|i: int|
                0 <= i < names.len() && (#[trigger] names[i])@ == k by {
                if before.contains_key(k) {
                    let i = choose|i: int| 0 <= i < listed.len() && (#[trigger] listed[i])@ == k;
                    assert(names[i]@ == k);
                }
                if k == key && !known {
                    assert(names[names.len() - 1]@ == k);
                }
                if exists|i: int| 0 <= i < names.len() && (#[trigger] names[i])@ == k {
                    let i = choose|i: int| 0 <= i < names.len() && (#[trigger] names[i])@ == k;
                    if i < listed.len() {
                        assert(listed[i]@ == k);
                    }
                }
            }
            assert forall|i: int, j: int| 0 <= i < j < names.len() implies (#[trigger] names[i])@
                != (#[trigger] names[j])@ by {
                assert(listed[i]@ == names[i]@);
                if j < listed.len() {
                    assert(listed[j]@ == names[j]@);
                }
            }
        }
        *self = CommentConfig { table, names };
    }

    /// The style entered for the extension.
    pub fn get(&self, extension: &str) -> (r: Option<Style>)
        ensures
            r == lookup(self@, extension@),
    {
        match self.table.get(extension) {
            Some(style) => Some(*style),
            None => None,
        }
    }

    /// Whether a style is entered for the extension.
    pub fn contains_key(&self, extension: &str) -> (r: bool)
        ensures
            r == self@.contains_key(extension@),
    {
        self.table.contains_key(extension)
    }

    /// Whether the registry has no entries.
    pub fn is_empty(&self) -> (r: bool)
        ensures
            r == (self@ == Map::<Seq<char>, Style>::empty()),
    {
        proof {
            use_type_invariant(self);
        }
        let r = self.names.len() == 0;
        if r {
            assert(self@ =~= Map::<Seq<char>, Style>::empty());
        } else {
            assert(self@.contains_key(self.names[0]@));
        }
        r
    }

    /// The extensions of the registry with their styles, each extension once,
    /// in the order in which the extensions were first entered.
    pub fn entries(&self) -> (out: Vec<(String, Style)>)
        ensures
            forall|i: int|
                0 <= i < out.len() ==> lookup(self@, (#[trigger] out[i]).0@) == Some(out[i].1),
            forall|i: int, j: int|
                0 <= i < j < out.len() ==> (#[trigger] out[i]).0@ != (#[trigger] out[j]).0@,
            forall|extension: Seq<char>|
                self@.contains_key(extension) ==> exists|i: int|
                    0 <= i < out.len() && (#[trigger] out[i]).0@ == extension,
    {
        proof {
            use_type_invariant(self);
        }
        let mut out: Vec<(String, Style)> = Vec::new();
        let mut i: usize = 0;
        while i < self.names.len()
            invariant
                i <= self.names.len(),
                out.len() == i,
                names_cover(self.table@, self.names@),
                forall|k: int| 0 <= k < i ==> (#[trigger] out[k]).0@ == self.names[k]@,
                forall|k: int|
                    0 <= k < i ==> lookup(self@, (#[trigger] out[k]).0@) == Some(out[k].1),
            decreases self.names.len() - i,
        {
            let name = &self.names[i];
            assert(self@.contains_key(name@));
            if let Some(style) = self.table.get(name.as_str()) {
                out.push((name.clone(), *style));
            }
            i += 1;
        }
        proof {
            assert forall|k: int, j: int| 0 <= k < j < out.len() implies (#[trigger] out[k]).0@
                != (#[trigger] out[j]).0@ by {
                assert(self.names[k]@ != self.names[j]@);
            }
            assert forall|extension: Seq<char>| self@.contains_key(extension) implies exists|
                k: int,
            |
                0 <= k < out.len() && (#[trigger] out[k]).0@ == extension by {
                let j = choose|j: int|
                    0 <= j < self.names.len() && (#[trigger] self.names[j])@ == extension;
                assert(out[j].0@ == extension);
            }
        }
        out
    }
}

/// Whether the extensions of the pairs stand in the order of a dictionary.
pub open spec fn sorted_by_extension(pairs: Seq<(String, Style)>) -> bool {
    forall|i: int, j: int|
        0 <= i < j < pairs.len() ==> lex_le((#[trigger] pairs[i]).0@, (#[trigger] pairs[j]).0@)
}

/// Whether the pair with this extension and style is among the pairs.
pub open spec fn lists(pairs: Seq<(String, Style)>, extension: Seq<char>, style: Style) -> bool {
    exists|i: int|
        0 <= i < pairs.len() && (#[trigger] pairs[i]).0@ == extension && pairs[i].1 == style
}

/// Whether no two of the pairs have the same extension.
pub open spec fn distinct_extensions(pairs: Seq<(String, Style)>) -> bool {
    forall|i: int, j: int|
        0 <= i < j < pairs.len() ==> (#[trigger] pairs[i]).0@ != (#[trigger] pairs[j]).0@
}

/// The pairs in the order of a dictionary by their extensions: as many pairs
/// as were given, and each extension with its style.
pub fn sort_by_extension(pairs: Vec<(String, Style)>) -> (out: Vec<(String, Style)>)
    ensures
        sorted_by_extension(out@),
        out.len() == pairs.len(),
        forall|i: int|
            0 <= i < pairs.len() ==> lists(out@, (#[trigger] pairs[i]).0@, pairs[i].1),
        forall|i: int|
            0 <= i < out.len() ==> lists(pairs@, (#[trigger] out[i]).0@, out[i].1),
        distinct_extensions(pairs@) ==> distinct_extensions(out@),
{
    let mut out: Vec<(String, Style)> = Vec::new();
    let ghost mut from: Seq<int> = Seq::empty();
    let mut i: usize = 0;
    while i < pairs.len()
        invariant
            i <= pairs.len(),
            out.len() == i,
            from.len() == i,
            sorted_by_extension(out@),
            forall|k: int| 0 <= k < i ==> lists(out@, (#[trigger] pairs[k]).0@, pairs[k].1),
            forall|k: int|
                0 <= k < i ==> 0 <= #[trigger] from[k] < i && out[k].0@ == pairs[from[k]].0@
                    && out[k].1 == pairs[from[k]].1,
            forall|k: int, j: int| 0 <= k < j < i ==> #[trigger] from[k] != #[trigger] from[j],
        decreases pairs.len() - i,
    {
        let key = to_chars(pairs[i].0.as_str());
        let mut at: usize = 0;
        while at < out.len() && lex_order(&to_chars(out[at].0.as_str()), &key)
            invariant
                at <= out.len(),
                forall|k: int| 0 <= k < at ==> lex_le((#[trigger] out[k]).0@, key@),
            decreases out.len() - at,
        {
            at += 1;
        }
        let ghost before = out@;
        let ghost from_before = from;
        let name = to_string(&key);
        let style = pairs[i].1;
        out.insert(at, (name, style));
        proof {
            from = from.insert(at as int, i as int);
            assert forall|a: int, b: int| 0 <= a < b < out.len() implies lex_le(
                (#[trigger] out[a]).0@,
                (#[trigger] out[b]).0@,
            ) by {
                if b == at {
                    assert(out[a] == before[a]);
                } else if a == at {
                    assert(out[b] == before[b - 1]);
                    lemma_lex_total(before[at as int].0@, key@);
                    if b - 1 > at {
                        assert(lex_le(before[at as int].0@, before[b - 1].0@));
                        lemma_lex_transitive(key@, before[at as int].0@, before[b - 1].0@);
                    }
                } else {
                    let a0 = if a < at { a } else { a - 1 };
                    let b0 = if b < at { b } else { b - 1 };
                    assert(out[a] == before[a0]);
                    assert(out[b] == before[b0]);
                }
            }
            assert forall|k: int| 0 <= k < i + 1 implies lists(
                out@,
                (#[trigger] pairs[k]).0@,
                pairs[k].1,
            ) by {
                if k < i {
                    let j = choose|j: int|
                        0 <= j < before.len() && (#[trigger] before[j]).0@ == pairs[k].0@
                            && before[j].1 == pairs[k].1;
                    let j1 = if j < at { j } else { j + 1 };
                    assert(out[j1] == before[j]);
                } else {
                    assert(out[at as int].0@ == pairs[k].0@ && out[at as int].1 == pairs[k].1);
                }
            }
            assert forall|k: int| 0 <= k < i + 1 implies 0 <= #[trigger] from[k] < i + 1
                && out[k].0@ == pairs[from[k]].0@ && out[k].1 == pairs[from[k]].1 by {
                if k != at {
                    let k0 = if k < at { k } else { k - 1 };
                    assert(out[k] == before[k0]);
                    assert(from[k] == from_before[k0]);
                }
            }
            assert forall|k: int, j: int| 0 <= k < j < i + 1 implies #[trigger] from[k]
                != #[trigger] from[j] by {
                let k0 = if k < at { k } else { k - 1 };
                let j0 = if j < at { j } else { j - 1 };
                if k != at {
                    assert(from[k] == from_before[k0]);
                }
                if j != at {
                    assert(from[j] == from_before[j0]);
                }
            }
        }
        i += 1;
    }
    proof {
        assert forall|k: int| 0 <= k < out.len() implies lists(
            pairs@,
            (#[trigger] out[k]).0@,
            out[k].1,
        ) by {
            assert(pairs[from[k]].0@ == out[k].0@);
        }
        if distinct_extensions(pairs@) {
            assert forall|a: int, b: int| 0 <= a < b < out.len() implies (#[trigger] out[a]).0@
                != (#[trigger] out[b]).0@ by {
                assert(from[a] != from[b]);
                if from[a] < from[b] {
                    assert(pairs[from[a]].0@ != pairs[from[b]].0@);
                } else {
                    assert(pairs[from[b]].0@ != pairs[from[a]].0@);
                }
            }
        }
    }
    out
}

/// Whether the pairs list the table: in the order of a dictionary, every
/// extension of the table once, each with its style, and nothing else.
pub open spec fn is_listing(table: Map<Seq<char>, Style>, pairs: Seq<(String, Style)>) -> bool {
    &&& sorted_by_extension(pairs)
    &&& distinct_extensions(pairs)
    &&& forall|i: int|
        0 <= i < pairs.len() ==> lookup(table, (#[trigger] pairs[i]).0@) == Some(pairs[i].1)
    &&& forall|extension: Seq<char>|
        table.contains_key(extension) ==> exists|i: int|
            0 <= i < pairs.len() && (#[trigger] pairs[i]).0@ == extension
}

impl CommentConfig {
    /// The extensions of the registry with their styles, each extension once,
    /// in the order of a dictionary.
    pub fn sorted_entries(&self) -> (out: Vec<(String, Style)>)
        ensures
            is_listing(self@, out@),
    {
        let entries = self.entries();
        let ghost given = entries@;
        let out = sort_by_extension(entries);
        proof {
            assert forall|i: int| 0 <= i < out.len() implies lookup(
                self@,
                (#[trigger] out[i]).0@,
            ) == Some(out[i].1) by {
                assert(lists(given, out[i].0@, out[i].1));
            }
            assert forall|extension: Seq<char>| self@.contains_key(extension) implies exists|
                i: int,
            |
                0 <= i < out.len() && (#[trigger] out[i]).0@ == extension by {
                let k = choose|k: int|
                    0 <= k < given.len() && (#[trigger] given[k]).0@ == extension;
                assert(lists(out@, given[k].0@, given[k].1));
            }
        }
        out
    }
}

/// What a line of a configuration holds.
#[derive(Debug, PartialEq, Eq)]
pub enum ConfigLine {
    /// Nothing: the line is empty or a comment.
    Nothing,
    /// An extension, without leading dots and in lower case, and its style.
    Entry(String, Style),
    /// A single word, as it stands: an extension without a style.
    MissingStyle(String),
    /// An extension, without leading dots and in lower case, and words that
    /// name no style.
    UnknownStyle(String, String),
}

/// A `ConfigLine` with its texts as sequences of characters.
pub enum ConfigLineView {
    Nothing,
    Entry(Seq<char>, Style),
    MissingStyle(Seq<char>),
    UnknownStyle(Seq<char>, Seq<char>),
}

impl View for ConfigLine {
    type V = ConfigLineView;

    open spec fn view(&self) -> ConfigLineView {
        match self {
            ConfigLine::Nothing => ConfigLineView::Nothing,
            ConfigLine::Entry(extension, style) => ConfigLineView::Entry(extension@, *style),
            ConfigLine::MissingStyle(word) => ConfigLineView::MissingStyle(word@),
            ConfigLine::UnknownStyle(extension, name) => ConfigLineView::UnknownStyle(
                extension@,
                name@,
            ),
        }
    }
}

/// What a line of a configuration holds: nothing where it is empty or starts
/// with `#`; else its first word is the extension, taken without leading dots
/// and in lower case, and its other words, with one space between them, name
/// the style.
pub open spec fn config_line(line: Seq<char>) -> ConfigLineView {
    let text = trimmed(line);
    let words = words_of(text);
    if text.len() == 0 || text[0] == '#' || words.len() == 0 {
        ConfigLineView::Nothing
    } else if words.len() == 1 {
        ConfigLineView::MissingStyle(words[0])
    } else {
        let name = joined(words.skip(1), seq![' ']);
        let extension = lowercased(strip_leading(words[0], seq!['.']));
        match style_named(trimmed(name)) {
            Some(style) => ConfigLineView::Entry(extension, style),
            None => ConfigLineView::UnknownStyle(extension, name),
        }
    }
}

/// What one line of a configuration enters into the registry, if anything.
pub open spec fn config_entry(line: Seq<char>) -> Option<(Seq<char>, Style)> {
    match config_line(line) {
        ConfigLineView::Entry(extension, style) => Some((extension, style)),
        _ => None,
    }
}

/// Whether the line is skipped with a warning: it names an extension, and no
/// style with it.
pub open spec fn is_warning(line: ConfigLineView) -> bool {
    line is MissingStyle || line is UnknownStyle
}

/// What the lines that are skipped with a warning hold, in order.
pub open spec fn warnings_from_lines(lines: Seq<Seq<char>>) -> Seq<ConfigLineView>
    decreases lines.len(),
{
    if lines.len() == 0 {
        Seq::empty()
    } else if is_warning(config_line(lines.last())) {
        warnings_from_lines(lines.drop_last()).push(config_line(lines.last()))
    } else {
        warnings_from_lines(lines.drop_last())
    }
}

/// The views of the lines, in order.
pub open spec fn config_line_views(lines: Seq<ConfigLine>) -> Seq<ConfigLineView> {
    Seq::new(lines.len(), |i: int| lines[i]@)
}

/// The table after the lines of a configuration are entered into it, each
/// line in turn: a later entry for an extension takes the place of an earlier
/// one.
pub open spec fn config_from_lines(
    base: Map<Seq<char>, Style>,
    lines: Seq<Seq<char>>,
) -> Map<Seq<char>, Style>
    decreases lines.len(),
{
    if lines.len() == 0 {
        base
    } else {
        let before = config_from_lines(base, lines.drop_last());
        match config_entry(lines.last()) {
            Some((extension, style)) => before.insert(extension, style),
            None => before,
        }
    }
}

/// The table after a configuration text is entered into it: its entries
/// overwrite or extend those of the table.
pub open spec fn overlaid(base: Map<Seq<char>, Style>, content: Seq<char>) -> Map<
    Seq<char>,
    Style,
> {
    config_from_lines(base, lines_of(content))
}

/// The registry that a configuration text makes by itself.
pub open spec fn config_of(content: Seq<char>) -> Map<Seq<char>, Style> {
    overlaid(Map::empty(), content)
}

/// What a line of a configuration holds.
pub fn read_line(line: &Vec<char>) -> (r: ConfigLine)
    ensures
        r@ == config_line(line@),
{
    let text = trim(line);
    if text.len() == 0 || text[0] == '#' {
        return ConfigLine::Nothing;
    }
    let words = split_whitespace(&text);
    if words.len() == 0 {
        return ConfigLine::Nothing;
    }
    if words.len() == 1 {
        return ConfigLine::MissingStyle(to_string(&words[0]));
    }
    let mut rest: Vec<Vec<char>> = Vec::new();
    let mut k: usize = 1;
    while k < words.len()
        invariant
            1 <= k <= words.len(),
            views(rest@) == views(words@).subrange(1, k as int),
        decreases words.len() - k,
    {
        let ghost before = views(rest@);
        let word = copy_range(&words[k], 0, words[k].len());
        assert(word@ == words[k as int]@) by {
            assert(words[k as int]@.subrange(0, words[k as int]@.len() as int)
                == words[k as int]@);
        }
        rest.push(word);
        assert(views(rest@) =~= before.push(word@));
        assert(before.push(word@) =~= views(words@).subrange(1, k + 1));
        k += 1;
    }
    assert(views(words@).subrange(1, words.len() as int) == views(words@).skip(1));
    let mut space: Vec<char> = Vec::new();
    space.push(' ');
    assert(space@ =~= seq![' ']);
    let name = join(&rest, &space);
    let mut dot: Vec<char> = Vec::new();
    dot.push('.');
    assert(dot@ =~= seq!['.']);
    let bare = to_string(&trim_leading(&words[0], &dot));
    let extension = bare.as_str().to_lowercase();
    match Style::from_name(&name) {
        Some(style) => ConfigLine::Entry(extension, style),
        None => ConfigLine::UnknownStyle(extension, to_string(&name)),
    }
}

/// What one line of a configuration enters into the registry, if anything.
pub fn parse_line(line: &Vec<char>) -> (r: Option<(String, Style)>)
    ensures
        r is Some == config_entry(line@) is Some,
        r matches Some(e) ==> (e.0@, e.1) == config_entry(line@)->Some_0,
{
    match read_line(line) {
        ConfigLine::Entry(extension, style) => Some((extension, style)),
        _ => None,
    }
}

/// What the lines of a configuration hold that are skipped with a warning: an
/// extension without a style, or with words that name no style. They are given
/// in the order of the lines.
pub fn config_warnings(content: &str) -> (out: Vec<ConfigLine>)
    ensures
        config_line_views(out@) == warnings_from_lines(lines_of(content@)),
{
    let lines = split_lines(&to_chars(content));
    let ghost all = views(lines@);
    let mut out: Vec<ConfigLine> = Vec::new();
    let mut i: usize = 0;
    assert(all.take(0) =~= Seq::<Seq<char>>::empty());
    assert(config_line_views(out@) =~= warnings_from_lines(all.take(0)));
    while i < lines.len()
        invariant
            i <= lines.len(),
            all == views(lines@),
            config_line_views(out@) == warnings_from_lines(all.take(i as int)),
        decreases lines.len() - i,
    {
        proof {
            assert(all.take(i + 1).drop_last() =~= all.take(i as int));
            assert(all.take(i + 1).last() == lines[i as int]@);
        }
        let ghost before = config_line_views(out@);
        let held = read_line(&lines[i]);
        match held {
            ConfigLine::MissingStyle(_) | ConfigLine::UnknownStyle(_, _) => {
                out.push(held);
                assert(config_line_views(out@) =~= before.push(config_line(lines[i as int]@)));
            },
            _ => {},
        }
        i += 1;
    }
    assert(all.take(lines.len() as int) == all);
    out
}

/// A configuration entered into a table overwrites or extends it: an
/// extension of the configuration has the style that the configuration gives
/// it, every other extension keeps the style of the table, and there are no
/// further extensions.
pub proof fn lemma_overlaid(base: Map<Seq<char>, Style>, content: Seq<char>)
    ensures
        overlaid(base, content) == base.union_prefer_right(config_of(content)),
{
    lemma_config_from_lines(base, lines_of(content));
}

/// Lines entered into a table overwrite or extend it.
pub proof fn lemma_config_from_lines(base: Map<Seq<char>, Style>, lines: Seq<Seq<char>>)
    ensures
        config_from_lines(base, lines) == base.union_prefer_right(
            config_from_lines(Map::empty(), lines),
        ),
    decreases lines.len(),
{
    if lines.len() == 0 {
        assert(base.union_prefer_right(Map::<Seq<char>, Style>::empty()) =~= base);
    } else {
        lemma_config_from_lines(base, lines.drop_last());
        let before = config_from_lines(Map::empty(), lines.drop_last());
        match config_entry(lines.last()) {
            Some((extension, style)) => {
                assert(base.union_prefer_right(before).insert(extension, style)
                    =~= base.union_prefer_right(before.insert(extension, style)));
            },
            None => {},
        }
    }
}

/// Enters a configuration into the registry, one extension and its style per
/// line: the entries overwrite or extend those that the registry holds.
pub fn parse_config_onto(config: &mut CommentConfig, content: &str)
    ensures
        final(config)@ == overlaid(old(config)@, content@),
{
    let lines = split_lines(&to_chars(content));
    let ghost all = views(lines@);
    let mut i: usize = 0;
    assert(all.take(0) =~= Seq::<Seq<char>>::empty());
    while i < lines.len()
        invariant
            i <= lines.len(),
            all == views(lines@),
            config@ == config_from_lines(old(config)@, all.take(i as int)),
        decreases lines.len() - i,
    {
        proof {
            assert(all.take(i + 1).drop_last() =~= all.take(i as int));
            assert(all.take(i + 1).last() == lines[i as int]@);
        }
        match parse_line(&lines[i]) {
            Some((extension, style)) => {
                config.insert(extension.as_str(), style);
            },
            None => {},
        }
        i += 1;
    }
    assert(all.take(lines.len() as int) == all);
}

/// Reads a configuration: one extension and its style per line.
pub fn parse_config(content: &str) -> (r: CommentConfig)
    ensures
        r@ == config_of(content@),
{
    let mut config = CommentConfig::new();
    parse_config_onto(&mut config, content);
    config
}

/// The built-in configuration: one extension and its style per line; a line
/// that starts with `#` is a comment.
pub const DEFAULT_CONFIG: &'static str = "\
# Line comments with two slashes\n\
rs //\n\
js //\n\
jsx //\n\
mjs //\n\
cjs //\n\
ts //\n\
tsx //\n\
c //\n\
h //\n\
cc //\n\
cpp //\n\
cxx //\n\
hh //\n\
hpp //\n\
cs //\n\
java //\n\
kt //\n\
kts //\n\
scala //\n\
swift //\n\
go //\n\
dart //\n\
php //\n\
groovy //\n\
gradle //\n\
zig //\n\
proto //\n\
scss //\n\
less //\n\
jsonc //\n\
\n\
# Block comments\n\
css /* */\n\
\n\
# Hash\n\
py #\n\
rb #\n\
sh #\n\
bash #\n\
zsh #\n\
fish #\n\
pl #\n\
pm #\n\
r #\n\
jl #\n\
ex #\n\
exs #\n\
nim #\n\
tcl #\n\
ps1 #\n\
yaml #\n\
yml #\n\
toml #\n\
cmake #\n\
mk #\n\
\n\
# Semicolon\n\
ini ;\n\
asm ;\n\
lisp ;\n\
el ;\n\
clj ;\n\
cljs ;\n\
scm ;\n\
rkt ;\n\
\n\
# Markup\n\
html <!-- -->\n\
htm <!-- -->\n\
xhtml <!-- -->\n\
xml <!-- -->\n\
svg <!-- -->\n\
vue <!-- -->\n\
md <!-- -->\n\
\n\
# Two dashes\n\
sql --\n\
lua --\n\
hs --\n\
elm --\n\
adb --\n\
ads --\n\
vhd --\n\
vhdl --\n\
\n\
# Percent\n\
tex %\n\
sty %\n\
cls %\n\
bib %\n\
erl %\n\
hrl %\n\
";

/// The registry that the built-in configuration makes.
pub fn default_config() -> (r: CommentConfig)
    ensures
        r@ == config_of(DEFAULT_CONFIG@),
{
    parse_config(DEFAULT_CONFIG)
}

} // verus!
