//! The processor: the options of a run, the registry of styles, the names of
//! the directories to pass over, the compiled patterns, and the two counts.
//! It decides for each file what is to be done; reading and writing the file
//! is the caller's part.

use crate::args::Args;
use crate::comments::{
    canonical_header, config_of, default_config, is_listing, lookup, lowercased, overlaid,
    parse_config_onto, CommentConfig, Style, DEFAULT_CONFIG,
};
use crate::ignored::{ignored_names, load_ignored_dirs, text_of, DEFAULT_IGNORE_CONFIG};
use crate::normalize::{
    is_settled, normalize, normalized, short_circuits, unchanged, Change, Rewrite, RewriteView,
};
use crate::paths::{
    dot_dot, extension, has_part_in, is_dot_dot, parts, path_extension, path_parts, relative_path,
    relative_to,
};
use crate::pattern::{pattern_source, regex_accepts, PathCommentPattern, PatternError};
use crate::report::{extension_report, report_extensions};
use crate::text::{
    lines_of, split, split_on, string_views, to_chars, to_string, trim, trimmed, views,
};
use std::sync::Arc;
use vstd::hash_set::StringHashSet;
use vstd::prelude::*;

verus! {

/// What reading a file gave.
#[derive(Debug)]
pub enum FileInput {
    /// The file's text.
    Text(String),
    /// The file holds something that is no text.
    Undecodable,
    /// The file could not be read.
    Unreadable,
}

/// A `FileInput` with its text as a sequence of characters.
pub enum FileInputView {
    Text(Seq<char>),
    Undecodable,
    Unreadable,
}

impl View for FileInput {
    type V = FileInputView;

    open spec fn view(&self) -> FileInputView {
        match self {
            FileInput::Text(text) => FileInputView::Text(text@),
            FileInput::Undecodable => FileInputView::Undecodable,
            FileInput::Unreadable => FileInputView::Unreadable,
        }
    }
}

/// What is to be done with a file.
#[derive(Debug)]
pub enum Verdict {
    /// No style is known for the file's extension: the file is none of ours.
    Ineligible,
    /// The file could not be read: skipped.
    Unreadable,
    /// The file holds no text: skipped.
    Undecodable,
    /// No style or no pattern could be had for the file: skipped.
    ConfigError,
    /// The file is as it should be: skipped.
    Unchanged(Rewrite),
    /// The file would change, and the run is a dry run: nothing is written.
    WouldWrite(Rewrite),
    /// The file changes: the new text is to be written.
    Write(Rewrite),
}

/// A `Verdict` with its texts as sequences of characters.
pub enum VerdictView {
    Ineligible,
    Unreadable,
    Undecodable,
    ConfigError,
    Unchanged(RewriteView),
    WouldWrite(RewriteView),
    Write(RewriteView),
}

impl View for Verdict {
    type V = VerdictView;

    open spec fn view(&self) -> VerdictView {
        match self {
            Verdict::Ineligible => VerdictView::Ineligible,
            Verdict::Unreadable => VerdictView::Unreadable,
            Verdict::Undecodable => VerdictView::Undecodable,
            Verdict::ConfigError => VerdictView::ConfigError,
            Verdict::Unchanged(rewrite) => VerdictView::Unchanged(rewrite@),
            Verdict::WouldWrite(rewrite) => VerdictView::WouldWrite(rewrite@),
            Verdict::Write(rewrite) => VerdictView::Write(rewrite@),
        }
    }
}

/// The processor of a run.
pub struct Cli {
    args: Args,
    base_dir: String,
    processed_count: usize,
    skipped_count: usize,
    extension_styles: CommentConfig,
    ignored_dirs: StringHashSet,
    patterns: Vec<PathCommentPattern>,
    unconfigured: Vec<String>,
}

/// What a processor holds.
pub struct CliView {
    /// The options of the run.
    pub args: Args,
    /// The base directory of relative paths.
    pub base_dir: Seq<char>,
    /// The number of files processed so far.
    pub processed: usize,
    /// The number of files skipped so far.
    pub skipped: usize,
    /// The style of each extension that is processed.
    pub styles: Map<Seq<char>, Style>,
    /// The names of the directories that are passed over.
    pub ignored: Set<Seq<char>>,
    /// The styles for which a compiled pattern is held.
    pub patterns: Set<Style>,
    /// The extensions that were asked for and had no style configured.
    pub unconfigured: Seq<Seq<char>>,
}

/// The styles of the given patterns.
pub open spec fn styles_of(patterns: Seq<PathCommentPattern>) -> Set<Style> {
    Set::new(
        |style: Style|
            exists|i: int| 0 <= i < patterns.len() && #[trigger] patterns[i].style() == style,
    )
}

/// The extensions that an allow-list names: its pieces between commas, each
/// without whitespace at its ends and in lower case.
pub open spec fn allow_list(text: Seq<char>) -> Seq<Seq<char>> {
    Seq::new(
        split_on(text, ',').len(),
        |i: int| lowercased(trimmed(split_on(text, ',')[i])),
    )
}

/// The registry cut down to the listed extensions. A listed extension that the
/// registry lacks gets the style with two slashes.
pub open spec fn allowed_styles(table: Map<Seq<char>, Style>, list: Seq<Seq<char>>) -> Map<
    Seq<char>,
    Style,
>
    decreases list.len(),
{
    if list.len() == 0 {
        Map::empty()
    } else {
        allowed_styles(table, list.drop_last()).insert(
            list.last(),
            match lookup(table, list.last()) {
                Some(style) => style,
                None => Style::Slash,
            },
        )
    }
}

/// The listed extensions that the registry lacks, in order.
pub open spec fn lacking(table: Map<Seq<char>, Style>, list: Seq<Seq<char>>) -> Seq<Seq<char>>
    decreases list.len(),
{
    if list.len() == 0 {
        Seq::empty()
    } else if table.contains_key(list.last()) {
        lacking(table, list.drop_last())
    } else {
        lacking(table, list.drop_last()).push(list.last())
    }
}

/// The registry of a run: the built-in one, with the entries of the given
/// configuration entered over it where one is given.
pub open spec fn configured_styles(config: Option<Seq<char>>) -> Map<Seq<char>, Style> {
    match config {
        Some(text) => overlaid(config_of(DEFAULT_CONFIG@), text),
        None => config_of(DEFAULT_CONFIG@),
    }
}

/// What a new processor holds, given the styles of its patterns.
pub open spec fn initial_view(
    args: Args,
    base_dir: Seq<char>,
    config: Option<Seq<char>>,
    gitignore: Option<Seq<char>>,
    patterns: Set<Style>,
) -> CliView {
    let table = configured_styles(config);
    CliView {
        args,
        base_dir,
        processed: 0,
        skipped: 0,
        styles: match args.extensions {
            Some(list) => allowed_styles(table, allow_list(list@)),
            None => table,
        },
        ignored: ignored_names(DEFAULT_IGNORE_CONFIG@, gitignore),
        patterns,
        unconfigured: match args.extensions {
            Some(list) => lacking(table, allow_list(list@)),
            None => Seq::empty(),
        },
    }
}

/// Whether a style is known for the extension of the file.
pub open spec fn eligible(cli: CliView, path: Seq<char>) -> bool {
    match extension(path) {
        Some(ext) => cli.styles.contains_key(lowercased(ext)),
        None => false,
    }
}

/// The style of the file's comments: the one that the options force, or else
/// the one of the file's extension.
pub open spec fn style_for(cli: CliView, path: Seq<char>) -> Option<Style> {
    match cli.args.comment_style {
        Some(style) => Some(style),
        None => match extension(path) {
            Some(ext) => lookup(cli.styles, lowercased(ext)),
            None => None,
        },
    }
}

/// Whether the directory is passed over: one of its parts is a name to pass
/// over, and the options do not force it.
pub open spec fn skips_directory(cli: CliView, path: Seq<char>) -> bool {
    !cli.args.force && has_part_in(path, cli.ignored)
}

/// The header that the file at `path` should carry in the given style.
pub open spec fn header_for(cli: CliView, path: Seq<char>, style: Style) -> Seq<char> {
    canonical_header(style, relative_path(path, cli.base_dir))
}

/// What is to be done with the file at `path`, given what reading it gave.
pub open spec fn verdict_of(cli: CliView, path: Seq<char>, input: FileInputView) -> VerdictView {
    if !eligible(cli, path) {
        VerdictView::Ineligible
    } else {
        match (style_for(cli, path), input) {
            (None, _) => VerdictView::ConfigError,
            (Some(_), FileInputView::Unreadable) => VerdictView::Unreadable,
            (Some(_), FileInputView::Undecodable) => VerdictView::Undecodable,
            (Some(style), FileInputView::Text(content)) => {
                let header = header_for(cli, path, style);
                let strip = cli.args.strip;
                let clean = cli.args.clean;
                let rewrite = normalized(content, header, style, strip, clean);
                if !cli.patterns.contains(style) && !short_circuits(
                    lines_of(content),
                    header,
                    strip,
                ) {
                    VerdictView::ConfigError
                } else if rewrite.change == Change::Unchanged {
                    VerdictView::Unchanged(rewrite)
                } else if cli.args.dry_run {
                    VerdictView::WouldWrite(rewrite)
                } else {
                    VerdictView::Write(rewrite)
                }
            },
        }
    }
}

/// Where the base directory of a run comes from.
#[derive(Debug, PartialEq, Eq)]
pub enum BaseSource {
    /// The directory that the options name.
    Named(String),
    /// The root of the repository that holds the directory to process.
    GitRoot(String),
    /// The current working directory.
    CurrentDir,
}

/// A `BaseSource` with its texts as sequences of characters.
pub enum BaseSourceView {
    Named(Seq<char>),
    GitRoot(Seq<char>),
    CurrentDir,
}

impl View for BaseSource {
    type V = BaseSourceView;

    open spec fn view(&self) -> BaseSourceView {
        match self {
            BaseSource::Named(dir) => BaseSourceView::Named(dir@),
            BaseSource::GitRoot(dir) => BaseSourceView::GitRoot(dir@),
            BaseSource::CurrentDir => BaseSourceView::CurrentDir,
        }
    }
}

/// Whether the root of a repository is looked for: no base directory is named
/// and the search is not switched off.
pub open spec fn looks_for_git_root(args: Args) -> bool {
    args.base is None && !args.no_git_base
}

/// Where the base directory comes from: the options name it; or else it is
/// the root of the repository, where one is looked for and found; or else the
/// current working directory.
pub open spec fn chosen_base(args: Args, git_root: Option<Seq<char>>) -> BaseSourceView {
    match args.base {
        Some(dir) => BaseSourceView::Named(dir@),
        None => match git_root {
            Some(root) if !args.no_git_base => BaseSourceView::GitRoot(root),
            _ => BaseSourceView::CurrentDir,
        },
    }
}

/// Whether names are taken from the `.gitignore` of the base directory: the
/// base directory is the root of a repository that was found, and the options
/// do not switch the merging off.
pub open spec fn takes_gitignore(args: Args, source: BaseSourceView) -> bool {
    source is GitRoot && !args.no_ignore_merge
}

/// Whether the root of a repository is looked for.
pub fn searches_git_root(args: &Args) -> (r: bool)
    ensures
        r == looks_for_git_root(*args),
{
    args.base.is_none() && !args.no_git_base
}

/// Where the base directory comes from, given the root of the repository
/// where one was looked for and found.
pub fn base_source(args: &Args, git_root: Option<&str>) -> (source: BaseSource)
    ensures
        source@ == chosen_base(*args, text_of(git_root)),
{
    match &args.base {
        Some(dir) => BaseSource::Named(dir.clone()),
        None => match git_root {
            Some(root) => {
                if args.no_git_base {
                    BaseSource::CurrentDir
                } else {
                    BaseSource::GitRoot(to_string(&to_chars(root)))
                }
            },
            None => BaseSource::CurrentDir,
        },
    }
}

/// Whether names are taken from the `.gitignore` of the base directory.
pub fn merges_gitignore(args: &Args, source: &BaseSource) -> (r: bool)
    ensures
        r == takes_gitignore(*args, source@),
{
    match source {
        BaseSource::GitRoot(_) => !args.no_ignore_merge,
        _ => false,
    }
}

/// A count after one more; a count at its limit stays there.
pub open spec fn bumped(n: usize) -> usize {
    if n < usize::MAX {
        (n + 1) as usize
    } else {
        n
    }
}

/// The processor after a verdict is counted: a file that is skipped counts as
/// skipped, one that a dry run would write as processed; a file that is none
/// of ours, or that is still to be written, is not counted.
pub open spec fn counted(cli: CliView, verdict: VerdictView) -> CliView {
    match verdict {
        VerdictView::Ineligible | VerdictView::Write(_) => cli,
        VerdictView::WouldWrite(_) => CliView { processed: bumped(cli.processed), ..cli },
        _ => CliView { skipped: bumped(cli.skipped), ..cli },
    }
}

/// A count after one more.
fn bump(n: usize) -> (r: usize)
    ensures
        r == bumped(n),
{
    if n < usize::MAX {
        n + 1
    } else {
        n
    }
}

/// The place of a style in the list of styles.
pub open spec fn style_rank(style: Style) -> int {
    match style {
        Style::Slash => 0,
        Style::SlashStar => 1,
        Style::Hash => 2,
        Style::Semi => 3,
        Style::Xml => 4,
        Style::DoubleDash => 5,
        Style::Percent => 6,
    }
}

/// The patterns after one more attempt to compile one: with the new pattern
/// at the end where the attempt gave one, and as they were where it failed.
pub open spec fn with_attempt(
    patterns: Seq<PathCommentPattern>,
    attempt: Result<PathCommentPattern, PatternError>,
) -> Seq<PathCommentPattern> {
    match attempt {
        Ok(pattern) => patterns.push(pattern),
        Err(_) => patterns,
    }
}

/// Takes up what an attempt to compile a pattern gave: a pattern is put at
/// the end of `patterns`, a failure leaves them as they are.
pub fn keep_compiled(
    patterns: &mut Vec<PathCommentPattern>,
    attempt: Result<PathCommentPattern, PatternError>,
)
    ensures
        final(patterns)@ == with_attempt(old(patterns)@, attempt),
{
    match attempt {
        Ok(pattern) => {
            patterns.push(pattern);
        },
        Err(_) => {},
    }
}

/// The styles whose pattern text the `regex` crate accepts.
pub open spec fn accepted_styles() -> Set<Style> {
    Set::new(|style: Style| regex_accepts(pattern_source(style)))
}

/// Compiles the pattern of every style. The styles whose pattern text the
/// `regex` crate accepts get their pattern, and no others; the patterns stand
/// in the order of the styles, each once.
pub fn compile_patterns() -> (patterns: Vec<PathCommentPattern>)
    ensures
        styles_of(patterns@) == accepted_styles(),
        forall|i: int, j: int|
            0 <= i < j < patterns.len() ==> style_rank((#[trigger] patterns[i]).style())
                < style_rank((#[trigger] patterns[j]).style()),
{
    let mut styles: Vec<Style> = Vec::new();
    styles.push(Style::Slash);
    styles.push(Style::SlashStar);
    styles.push(Style::Hash);
    styles.push(Style::Semi);
    styles.push(Style::Xml);
    styles.push(Style::DoubleDash);
    styles.push(Style::Percent);
    let mut patterns: Vec<PathCommentPattern> = Vec::new();
    let mut i: usize = 0;
    while i < styles.len()
        invariant
            i <= styles.len() == 7,
            forall|k: int| 0 <= k < styles.len() ==> style_rank(#[trigger] styles[k]) == k,
            forall|k: int|
                0 <= k < patterns.len() ==> style_rank((#[trigger] patterns[k]).style()) < i,
            forall|k: int, j: int|
                0 <= k < j < patterns.len() ==> style_rank((#[trigger] patterns[k]).style())
                    < style_rank((#[trigger] patterns[j]).style()),
            forall|style: Style|
                styles_of(patterns@).contains(style) == (style_rank(style) < i && regex_accepts(
                    pattern_source(style),
                )),
        decreases styles.len() - i,
    {
        let ghost before = patterns@;
        let attempt = PathCommentPattern::new(styles[i]);
        keep_compiled(&mut patterns, attempt);
        proof {
            assert forall|style: Style|
                styles_of(patterns@).contains(style) == (style_rank(style) < i + 1
                    && regex_accepts(pattern_source(style))) by {
                if styles_of(before).contains(style) {
                    let k = choose|k: int|
                        0 <= k < before.len() && #[trigger] before[k].style() == style;
                    assert(patterns[k].style() == style);
                }
                if styles_of(patterns@).contains(style) {
                    let k = choose|k: int|
                        0 <= k < patterns.len() && #[trigger] patterns[k].style() == style;
                    if k < before.len() {
                        assert(before[k].style() == style);
                    }
                }
                if style_rank(style) == i {
                    assert(style == styles[i as int]);
                    if attempt is Ok {
                        assert(patterns[patterns.len() - 1].style() == style);
                    }
                }
            }
        }
        i += 1;
    }
    assert(styles_of(patterns@) =~= accepted_styles());
    patterns
}

impl View for Cli {
    type V = CliView;

    closed spec fn view(&self) -> CliView {
        CliView {
            args: self.args,
            base_dir: self.base_dir@,
            processed: self.processed_count,
            skipped: self.skipped_count,
            styles: self.extension_styles@,
            ignored: self.ignored_dirs@,
            patterns: styles_of(self.patterns@),
            unconfigured: string_views(self.unconfigured@),
        }
    }
}

impl Cli {
    /// The processor of a run, with the given compiled patterns. `config` is
    /// the text of the configuration file, where one was given and could be
    /// read: its entries overwrite or extend the built-in ones. `gitignore`
    /// is the text of the `.gitignore` to take names from.
    pub fn with_patterns(
        args: Args,
        base_dir: String,
        config: Option<&str>,
        gitignore: Option<&str>,
        patterns: Vec<PathCommentPattern>,
    ) -> (cli: Cli)
        ensures
            cli@ == initial_view(
                args,
                base_dir@,
                text_of(config),
                text_of(gitignore),
                styles_of(patterns@),
            ),
    {
        let mut table = default_config();
        if let Some(text) = config {
            parse_config_onto(&mut table, text);
        }
        let mut unconfigured: Vec<String> = Vec::new();
        let extension_styles = match &args.extensions {
            Some(list) => {
                let pieces = split(&to_chars(list.as_str()), ',');
                let ghost names = allow_list(list@);
                let mut filtered = CommentConfig::new();
                let mut i: usize = 0;
                assert(names.take(0) =~= Seq::<Seq<char>>::empty());
                assert(string_views(unconfigured@) =~= lacking(table@, names.take(0)));
                while i < pieces.len()
                    invariant
                        i <= pieces.len(),
                        views(pieces@) == split_on(list@, ','),
                        names == allow_list(list@),
                        filtered@ == allowed_styles(table@, names.take(i as int)),
                        string_views(unconfigured@) == lacking(table@, names.take(i as int)),
                    decreases pieces.len() - i,
                {
                    let name = to_string(&trim(&pieces[i])).as_str().to_lowercase();
                    proof {
                        assert(pieces[i as int]@ == views(pieces@)[i as int]);
                        assert(name@ == names[i as int]);
                        assert(names.take(i + 1).drop_last() =~= names.take(i as int));
                        assert(names.take(i + 1).last() == name@);
                    }
                    match table.get(name.as_str()) {
                        Some(style) => {
                            filtered.insert(name.as_str(), style);
                        },
                        None => {
                            filtered.insert(name.as_str(), Style::Slash);
                            let ghost before = string_views(unconfigured@);
                            unconfigured.push(name);
                            assert(string_views(unconfigured@) =~= before.push(names[i as int]));
                        },
                    }
                    i += 1;
                }
                assert(names.take(pieces.len() as int) == names);
                filtered
            },
            None => {
                assert(string_views(unconfigured@) =~= Seq::<Seq<char>>::empty());
                table
            },
        };
        let ignored_dirs = load_ignored_dirs(gitignore);
        Cli {
            args,
            base_dir,
            processed_count: 0,
            skipped_count: 0,
            extension_styles,
            ignored_dirs,
            patterns,
            unconfigured,
        }
    }

    /// The processor of a run, with the patterns of the styles whose pattern
    /// text the `regex` crate accepts.
    pub fn new(args: Args, base_dir: String, config: Option<&str>, gitignore: Option<&str>) -> (cli:
        Cli)
        ensures
            cli@ == initial_view(
                args,
                base_dir@,
                text_of(config),
                text_of(gitignore),
                accepted_styles(),
            ),
    {
        Self::with_patterns(args, base_dir, config, gitignore, compile_patterns())
    }

    /// The processor of a run, to be shared.
    pub fn new_arc(args: Args, base_dir: String, config: Option<&str>, gitignore: Option<&str>) -> (cli:
        Arc<Cli>)
        ensures
            cli@ == initial_view(
                args,
                base_dir@,
                text_of(config),
                text_of(gitignore),
                accepted_styles(),
            ),
    {
        Arc::new(Self::new(args, base_dir, config, gitignore))
    }

    /// The names of the directories that are passed over.
    pub fn ignored_dirs(&self) -> (names: &StringHashSet)
        ensures
            names@ == self@.ignored,
    {
        &self.ignored_dirs
    }

    /// The extensions that were asked for and had no style configured; they
    /// are processed with two slashes.
    pub fn unconfigured_extensions(&self) -> (names: &Vec<String>)
        ensures
            string_views(names@) == self@.unconfigured,
    {
        &self.unconfigured
    }

    /// The options of the run.
    pub fn args(&self) -> (args: &Args)
        ensures
            *args == self@.args,
    {
        &self.args
    }

    /// The extensions that are processed, each with its style.
    pub fn extension_styles(&self) -> (table: &CommentConfig)
        ensures
            table@ == self@.styles,
    {
        &self.extension_styles
    }

    /// Whether a style is known for the extension of the file.
    pub fn should_process_file(&self, path: &str) -> (r: bool)
        ensures
            r == eligible(self@, path@),
    {
        match path_extension(path) {
            Some(ext) => {
                let lower = ext.as_str().to_lowercase();
                self.extension_styles.contains_key(lower.as_str())
            },
            None => false,
        }
    }

    /// The style of the file's comments: the one that the options force, or
    /// else the one of the file's extension.
    pub fn determine_comment_style(&self, path: &str) -> (r: Option<Style>)
        ensures
            r == style_for(self@, path@),
    {
        if let Some(style) = self.args.comment_style {
            return Some(style);
        }
        match path_extension(path) {
            Some(ext) => {
                let lower = ext.as_str().to_lowercase();
                self.extension_styles.get(lower.as_str())
            },
            None => None,
        }
    }

    /// Whether the directory is passed over.
    pub fn should_skip_directory(&self, path: &str) -> (r: bool)
        ensures
            r == skips_directory(self@, path@),
    {
        if self.args.force {
            return false;
        }
        let all = path_parts(&to_chars(path));
        let mut i: usize = 0;
        while i < all.len()
            invariant
                i <= all.len(),
                !self.args.force,
                views(all@) == parts(path@),
                forall|j: int|
                    0 <= j < i ==> !(#[trigger] parts(path@)[j] != dot_dot()
                        && self@.ignored.contains(parts(path@)[j])),
            decreases all.len() - i,
        {
            assert(all[i as int]@ == parts(path@)[i as int]);
            if !is_dot_dot(&all[i]) {
                let name = to_string(&all[i]);
                if self.ignored_dirs.contains(name.as_str()) {
                    assert(parts(path@)[i as int] != dot_dot() && self@.ignored.contains(
                        parts(path@)[i as int],
                    ));
                    return true;
                }
            }
            i += 1;
        }
        false
    }

    /// The compiled pattern of the style, if one is held.
    fn pattern_for(&self, style: Style) -> (r: Option<&PathCommentPattern>)
        ensures
            r is Some == self@.patterns.contains(style),
            r matches Some(pattern) ==> pattern.style() == style,
    {
        let mut i: usize = 0;
        while i < self.patterns.len()
            invariant
                i <= self.patterns.len(),
                forall|j: int| 0 <= j < i ==> (#[trigger] self.patterns[j]).style() != style,
            decreases self.patterns.len() - i,
        {
            if self.patterns[i].comment_style() == style {
                return Some(&self.patterns[i]);
            }
            i += 1;
        }
        None
    }

    /// What is to be done with the file at `path`, given what reading it gave.
    /// Nothing is counted.
    pub fn plan_file(&self, path: &str, input: &FileInput) -> (verdict: Verdict)
        ensures
            verdict@ == verdict_of(self@, path@, input@),
    {
        if !self.should_process_file(path) {
            return Verdict::Ineligible;
        }
        let style = match self.determine_comment_style(path) {
            Some(style) => style,
            None => {
                return Verdict::ConfigError;
            },
        };
        let content = match input {
            FileInput::Text(text) => text.as_str(),
            FileInput::Undecodable => {
                return Verdict::Undecodable;
            },
            FileInput::Unreadable => {
                return Verdict::Unreadable;
            },
        };
        let rel_path = relative_to(path, self.base_dir.as_str());
        let header = style.header(rel_path.as_str());
        let strip = self.args.strip;
        let clean = self.args.clean;
        let rewrite = match self.pattern_for(style) {
            Some(pattern) => normalize(content, header.as_str(), pattern, strip, clean),
            None => {
                if !is_settled(content, header.as_str(), strip) {
                    return Verdict::ConfigError;
                }
                unchanged(content, header.as_str())
            },
        };
        match rewrite.change {
            Change::Unchanged => Verdict::Unchanged(rewrite),
            _ => if self.args.dry_run {
                Verdict::WouldWrite(rewrite)
            } else {
                Verdict::Write(rewrite)
            },
        }
    }

    /// Counts what was decided for a file. A skipped file counts as skipped,
    /// and one that a dry run would write counts as processed. A file that is
    /// none of ours is not counted, and one that is to be written is counted
    /// when `record_write` says how the writing went.
    pub fn count(&mut self, verdict: &Verdict)
        ensures
            final(self)@ == counted(old(self)@, verdict@),
    {
        match verdict {
            Verdict::Ineligible | Verdict::Write(_) => {},
            Verdict::WouldWrite(_) => {
                self.processed_count = bump(self.processed_count);
            },
            _ => {
                self.skipped_count = bump(self.skipped_count);
            },
        }
    }

    /// Decides what is to be done with the file at `path` and counts it, as
    /// `plan_file` and `count` do one after the other.
    pub fn process_file(&mut self, path: &str, input: &FileInput) -> (verdict: Verdict)
        ensures
            verdict@ == verdict_of(old(self)@, path@, input@),
            final(self)@ == counted(old(self)@, verdict@),
    {
        let verdict = self.plan_file(path, input);
        self.count(&verdict);
        verdict
    }

    /// Counts a file that was to be written: as processed where the writing
    /// succeeded, as skipped where it failed.
    pub fn record_write(&mut self, succeeded: bool)
        ensures
            final(self)@ == if succeeded {
                CliView { processed: bumped(old(self)@.processed), ..old(self)@ }
            } else {
                CliView { skipped: bumped(old(self)@.skipped), ..old(self)@ }
            },
    {
        if succeeded {
            self.processed_count = bump(self.processed_count);
        } else {
            self.skipped_count = bump(self.skipped_count);
        }
    }

    /// Counts a file that the walk met and that is none of ours as skipped.
    pub fn record_skipped(&mut self)
        ensures
            final(self)@ == (CliView { skipped: bumped(old(self)@.skipped), ..old(self)@ }),
    {
        self.skipped_count = bump(self.skipped_count);
    }

    /// The lines that list the extensions that are processed, in the order of
    /// a dictionary, each with the delimiters of its style.
    pub fn extension_listing(&self) -> (lines: Vec<String>)
        ensures
            exists|pairs: Seq<(String, Style)>|
                is_listing(self@.styles, pairs) && string_views(lines@) == extension_report(pairs),
    {
        let pairs = self.extension_styles.sorted_entries();
        let lines = report_extensions(&pairs);
        assert(is_listing(self@.styles, pairs@) && string_views(lines@) == extension_report(
            pairs@,
        ));
        lines
    }

    /// How deep the walk goes: without limit, or into the directory itself
    /// and no further where the options say so.
    pub fn walk_depth(&self) -> (depth: Option<usize>)
        ensures
            depth == if self@.args.recursive {
                None::<usize>
            } else {
                Some(1usize)
            },
    {
        if self.args.recursive {
            None
        } else {
            Some(1)
        }
    }

    /// Whether the walk keeps what it met at `path`: every file, and every
    /// directory that is not passed over.
    pub fn keeps_entry(&self, is_dir: bool, path: &str) -> (r: bool)
        ensures
            r == !(is_dir && skips_directory(self@, path@)),
    {
        !is_dir || !self.should_skip_directory(path)
    }

    /// The number of files processed and the number of files skipped.
    pub fn get_stats(&self) -> (r: (usize, usize))
        ensures
            r == (self@.processed, self@.skipped),
    {
        (self.processed_count, self.skipped_count)
    }
}

} // verus!
