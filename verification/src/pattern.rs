//! The pattern that tells a line which is nothing but a path in a comment from
//! every other line. The pattern is a regular expression, compiled and run by
//! the `regex` crate.

use crate::comments::Style;
use crate::text::{append, same, to_chars, to_string, trim, trimmed};
use regex::Regex;
use vstd::prelude::*;

verus! {

/// A compiled regular expression of the `regex` crate. Nothing inside it is
/// visible to proofs.
#[verifier::external_type_specification]
#[verifier::external_body]
pub struct ExRegex(regex::Regex);

/// The error with which the `regex` crate refuses a pattern. Nothing inside it
/// is visible to proofs.
#[verifier::external_type_specification]
#[verifier::external_body]
pub struct ExRegexError(regex::Error);

/// The pattern text that a compiled expression was made from: what
/// `Regex::as_str` returns for it.
pub uninterp spec fn regex_source(re: Regex) -> Seq<char>;

/// Whether the expression was made by `Regex::new`, that is with the default
/// options of the crate and with no others. The same text compiled with other
/// options is another expression and may match other texts.
pub uninterp spec fn plainly_compiled(re: Regex) -> bool;

/// Whether `Regex::new` accepts the pattern text: it parses the text and
/// builds the expression with the crate's default options and limits.
pub uninterp spec fn regex_accepts(pattern: Seq<char>) -> bool;

/// Whether the expression that `Regex::new` makes of `pattern` finds a match
/// anywhere in `haystack`: what `Regex::is_match` returns for it.
pub uninterp spec fn regex_is_match(pattern: Seq<char>, haystack: Seq<char>) -> bool;

/// The characters that have a meaning of their own in a pattern.
pub open spec fn is_meta_character(c: char) -> bool {
    ||| c == '\\'
    ||| c == '.'
    ||| c == '+'
    ||| c == '*'
    ||| c == '?'
    ||| c == '('
    ||| c == ')'
    ||| c == '|'
    ||| c == '['
    ||| c == ']'
    ||| c == '{'
    ||| c == '}'
    ||| c == '^'
    ||| c == '$'
    ||| c == '#'
    ||| c == '&'
    ||| c == '-'
    ||| c == '~'
}

/// `text` with a backslash before each character that has a meaning of its own
/// in a pattern.
pub open spec fn escaped(text: Seq<char>) -> Seq<char>
    decreases text.len(),
{
    if text.len() == 0 {
        Seq::empty()
    } else if is_meta_character(text.last()) {
        escaped(text.drop_last()).push('\\').push(text.last())
    } else {
        escaped(text.drop_last()).push(text.last())
    }
}

/// What a path may look like between the delimiters, as a regular
/// expression: several segments of word characters, `-` and `.` with `/` or
/// `\` between them, after an optional root or drive letter; or a single name
/// with an extension. Whitespace may stand on either side.
pub const PATH_SHAPE: &'static str =
    "\\s*((?:/|\\\\|[A-Za-z]:)?(?:[\\w\\-\\.]+(?:/|\\\\))+[\\w\\-\\.]+(?:\\.\\w+)?|[\\w\\-\\.]+\\.\\w+)\\s*";

/// The text of the pattern for a style: from the start of the line to its end,
/// the prefix taken literally, a path, and the suffix taken literally.
pub open spec fn pattern_source(style: Style) -> Seq<char> {
    "^("@ + escaped(style.prefix()) + ")"@ + PATH_SHAPE@ + "("@ + escaped(style.suffix()) + ")$"@
}

/// Whether `line`, whitespace at its ends set aside, is nothing but a path in
/// a comment of the given style.
pub open spec fn is_path_comment(style: Style, line: Seq<char>) -> bool {
    regex_is_match(pattern_source(style), trimmed(line))
}

/// Calls `regex::escape`, which copies the text and puts a backslash before
/// each of the crate's meta characters.
#[verifier::external_body]
fn escape(text: &str) -> (r: String)
    ensures
        r@ == escaped(text@),
{
    regex::escape(text)
}

/// Calls `Regex::new`, which compiles the text with the default options. It
/// succeeds exactly on the texts that the crate accepts, and the compiled
/// expression remembers the text it was made from.
#[verifier::external_body]
fn compile(pattern: &str) -> (r: Result<Regex, regex::Error>)
    ensures
        r is Ok == regex_accepts(pattern@),
        r matches Ok(re) ==> plainly_compiled(re) && regex_source(re) == pattern@,
{
    Regex::new(pattern)
}

/// `Regex::as_str` returns the text that the expression was compiled from.
pub assume_specification[ Regex::as_str ](re: &Regex) -> (r: &str)
    ensures
        r@ == regex_source(*re),
;

/// Calls `Regex::is_match`, which says whether the expression matches anywhere
/// in the text. For an expression made by `Regex::new` the answer depends on
/// its text and on the haystack alone; of an expression made with other
/// options nothing is said.
#[verifier::external_body]
fn is_match(re: &Regex, haystack: &str) -> (b: bool)
    ensures
        plainly_compiled(*re) ==> b == regex_is_match(regex_source(*re), haystack@),
{
    re.is_match(haystack)
}

/// Why no pattern could be had for a style.
#[derive(Copy, Clone, PartialEq, Eq, Debug, Structural)]
pub enum PatternError {
    /// The pattern text for this style was refused when compiled.
    Rejected(Style),
    /// The compiled expression was made from another text than the pattern
    /// text of this style.
    Foreign(Style),
}

/// The compiled pattern of one comment style.
pub struct PathCommentPattern {
    style: Style,
    regex: Regex,
}

impl PathCommentPattern {
    #[verifier::type_invariant]
    spec fn compiled_from_style(self) -> bool {
        plainly_compiled(self.regex) && regex_source(self.regex) == pattern_source(self.style)
    }

    /// The style whose path comments the pattern recognises.
    pub closed spec fn style(&self) -> Style {
        self.style
    }

    /// The text of the pattern for a style.
    pub fn source(style: Style) -> (r: String)
        ensures
            r@ == pattern_source(style),
    {
        let (prefix, suffix) = style.delimiters();
        let mut text = to_chars("^(");
        append(&mut text, &to_chars(escape(prefix).as_str()));
        append(&mut text, &to_chars(")"));
        append(&mut text, &to_chars(PATH_SHAPE));
        append(&mut text, &to_chars("("));
        append(&mut text, &to_chars(escape(suffix).as_str()));
        append(&mut text, &to_chars(")$"));
        to_string(&text)
    }

    /// The pattern of a style, from what `Regex::new` gave: the compiled
    /// expression must be the one made from the pattern text of the style.
    pub fn from_compiled(style: Style, compiled: Result<Regex, regex::Error>) -> (r: Result<
        PathCommentPattern,
        PatternError,
    >)
        requires
            compiled matches Ok(re) ==> plainly_compiled(re),
        ensures
            r is Ok == (compiled matches Ok(re) && regex_source(re) == pattern_source(style)),
            r matches Ok(p) ==> p.style() == style,
            r matches Err(e) ==> e == if compiled is Err {
                PatternError::Rejected(style)
            } else {
                PatternError::Foreign(style)
            },
    {
        match compiled {
            Ok(regex) => {
                let wanted = to_chars(Self::source(style).as_str());
                if same(&to_chars(regex.as_str()), &wanted) {
                    Ok(PathCommentPattern { style, regex })
                } else {
                    Err(PatternError::Foreign(style))
                }
            },
            Err(_) => Err(PatternError::Rejected(style)),
        }
    }

    /// Compiles the pattern of a style. It succeeds exactly where the `regex`
    /// crate accepts the pattern text of the style.
    pub fn new(style: Style) -> (r: Result<PathCommentPattern, PatternError>)
        ensures
            r is Ok == regex_accepts(pattern_source(style)),
            r matches Ok(p) ==> p.style() == style,
            r matches Err(e) ==> e == PatternError::Rejected(style),
    {
        let text = Self::source(style);
        Self::from_compiled(style, compile(text.as_str()))
    }

    /// The style whose path comments the pattern recognises.
    pub fn comment_style(&self) -> (r: Style)
        ensures
            r == self.style(),
    {
        self.style
    }

    /// Whether `line`, whitespace at its ends set aside, is nothing but a path
    /// in a comment of the pattern's style.
    pub fn matches(&self, line: &Vec<char>) -> (r: bool)
        ensures
            r == is_path_comment(self.style(), line@),
    {
        proof {
            use_type_invariant(self);
        }
        let core = to_string(&trim(line));
        is_match(&self.regex, core.as_str())
    }
}

} // verus!
