use pathcomment::comments::Style;
use pathcomment::normalize::{assemble, is_settled, normalize, Change};
use pathcomment::pattern::{PathCommentPattern, PatternError};

const STYLES: [Style; 7] = [
    Style::Slash,
    Style::SlashStar,
    Style::Hash,
    Style::Semi,
    Style::Xml,
    Style::DoubleDash,
    Style::Percent,
];

fn pattern(style: Style) -> PathCommentPattern {
    PathCommentPattern::new(style).expect("the pattern of every style compiles")
}

fn run(content: &str, rel_path: &str, style: Style, strip: bool, clean: bool) -> (Change, String) {
    let header = style.header(rel_path);
    let rewrite = normalize(content, &header, &pattern(style), strip, clean);
    (rewrite.change, rewrite.content)
}

#[test]
fn header_is_added_to_a_file_without_one() {
    let (change, content) = run("content();\n", "test.js", Style::Slash, true, false);
    assert_eq!(change, Change::HeaderAdded);
    assert_eq!(content, "// test.js\ncontent();\n");
}

#[test]
fn stale_header_is_replaced_when_stripping() {
    let header = Style::Slash.header("test.js");
    let rewrite = normalize(
        "// old/path/test.js\ncontent();\n",
        &header,
        &pattern(Style::Slash),
        true,
        false,
    );
    assert_eq!(rewrite.change, Change::HeaderReplaced);
    assert_eq!(rewrite.content, "// test.js\ncontent();\n");
    assert_eq!(rewrite.removed, vec!["// old/path/test.js".to_string()]);
    assert_eq!(rewrite.header, "// test.js");
    assert!(!rewrite.header_present);
    assert_eq!(rewrite.stale_lines, vec![0]);
}

#[test]
fn plan_names_the_stale_lines() {
    let input = "// test.js\n// a/b.js\ncode\n  // c/d.js  \n// note: e/f.js\n// g.js\n";
    let header = Style::Slash.header("test.js");
    let rewrite = normalize(input, &header, &pattern(Style::Slash), true, true);
    assert!(rewrite.header_present);
    assert_eq!(rewrite.stale_lines, vec![1, 3, 5]);
    assert_eq!(rewrite.removed, vec!["// a/b.js", "  // c/d.js  ", "// g.js"]);
    assert_eq!(rewrite.content, "code\n// note: e/f.js\n");

    let rewrite = normalize(input, &header, &pattern(Style::Slash), true, false);
    assert_eq!(rewrite.change, Change::HeaderReplaced);
    assert!(rewrite.header_present);
    assert_eq!(rewrite.stale_lines, vec![1, 3, 5]);
    assert_eq!(rewrite.content, "// test.js\ncode\n// note: e/f.js\n");

    let rewrite = normalize(input, &header, &pattern(Style::Slash), false, false);
    assert_eq!(rewrite.change, Change::Unchanged);
    assert!(rewrite.header_present);
    assert!(rewrite.stale_lines.is_empty());

    let rewrite = normalize(input, "// other.js", &pattern(Style::Slash), true, false);
    assert!(!rewrite.header_present);
    assert_eq!(rewrite.stale_lines, vec![0, 1, 3, 5]);
    assert_eq!(rewrite.content, "// other.js\ncode\n// note: e/f.js\n");
}

#[test]
fn empty_file_gets_header_and_newline() {
    let (change, content) = run("", "App.tsx", Style::Slash, true, false);
    assert_eq!(change, Change::HeaderAdded);
    assert_eq!(content, "// App.tsx\n");
}

#[test]
fn correct_file_is_unchanged_in_every_mode_that_writes_a_header() {
    let input = "// test.js\ncontent();\n";
    for strip in [false, true] {
        let header = Style::Slash.header("test.js");
        let rewrite = normalize(input, &header, &pattern(Style::Slash), strip, false);
        assert_eq!(rewrite.change, Change::Unchanged);
        assert_eq!(rewrite.content, input);
        assert!(rewrite.removed.is_empty());
    }
}

#[test]
fn old_header_stays_as_body_line_without_stripping() {
    let (change, content) =
        run("// old/path/test.js\ncontent();\n", "test.js", Style::Slash, false, false);
    assert_eq!(change, Change::HeaderAdded);
    assert_eq!(content, "// test.js\n// old/path/test.js\ncontent();\n");
}

#[test]
fn header_with_whitespace_around_it_counts_as_present() {
    let input = "  // test.js \t\ncontent();\n";
    let (change, content) = run(input, "test.js", Style::Slash, false, false);
    assert_eq!(change, Change::Unchanged);
    assert_eq!(content, input);
    assert!(is_settled(input, "// test.js", false));
    assert!(!is_settled(input, "// test.js", true));
    assert!(!is_settled("content();\n", "// test.js", false));

    let header = Style::Slash.header("test.js");
    let rewrite = normalize(input, &header, &pattern(Style::Slash), true, false);
    assert!(rewrite.header_present);
    assert!(rewrite.stale_lines.is_empty());
    assert_eq!(rewrite.content, "// test.js\ncontent();\n");
    assert_eq!(rewrite.change, Change::HeaderAdded);
}

#[test]
fn stale_comment_below_a_right_header_is_stripped() {
    let input = "// test.js\n// old/path/test.js\ncontent();\n";
    let header = Style::Slash.header("test.js");
    let rewrite = normalize(input, &header, &pattern(Style::Slash), true, false);
    assert_eq!(rewrite.change, Change::HeaderReplaced);
    assert_eq!(rewrite.content, "// test.js\ncontent();\n");
    assert_eq!(rewrite.removed, vec!["// old/path/test.js".to_string()]);
    assert_eq!(rewrite.stale_lines, vec![1]);
    assert!(rewrite.header_present);

    let kept = normalize(input, &header, &pattern(Style::Slash), false, false);
    assert_eq!(kept.change, Change::Unchanged);
    assert_eq!(kept.content, input);
}

#[test]
fn normalizing_twice_changes_nothing_more() {
    let inputs = [
        "",
        "content();\n",
        "content();",
        "// old/path/test.js\ncontent();\n",
        "a\r\nb\r\n",
        "a\n\n\n",
        "\n\n",
        "// x/y.js\n// test.js\nbody",
    ];
    for style in STYLES {
        for strip in [false, true] {
            for input in inputs {
                let (_, once) = run(input, "test.js", style, strip, false);
                let (change, twice) = run(&once, "test.js", style, strip, false);
                assert_eq!(twice, once);
                assert_eq!(change, Change::Unchanged);
            }
        }
    }
}

#[test]
fn result_ends_as_the_input_did() {
    let with_newline = ["", "a\n", "a\n\n\n", "// x/y.js\n", "a\n// x/y.js\n\n"];
    let without_newline = ["a", "a\nb", "a\n\n// x/y.js", "a\n\n\n// x/y.js"];
    for strip in [false, true] {
        for clean in [false, true] {
            for input in with_newline {
                let (_, out) = run(input, "test.js", Style::Slash, strip, clean);
                assert!(out.ends_with('\n'), "{:?} -> {:?}", input, out);
                assert!(!out.ends_with("\n\n"), "{:?} -> {:?}", input, out);
            }
            for input in without_newline {
                let (_, out) = run(input, "test.js", Style::Slash, strip, clean);
                assert!(!out.ends_with('\n'), "{:?} -> {:?}", input, out);
            }
        }
    }
}

#[test]
fn trailing_blank_lines_collapse_to_one_newline() {
    let (_, out) = run("a\n\n\n", "test.js", Style::Slash, true, false);
    assert_eq!(out, "// test.js\na\n");
    let (_, out) = run("a\n\n\n// x/y.js", "test.js", Style::Slash, true, false);
    assert_eq!(out, "// test.js\na");
}

#[test]
fn carriage_returns_before_line_feeds_are_dropped() {
    let (_, out) = run("a\r\nb\r\n", "test.js", Style::Slash, true, false);
    assert_eq!(out, "// test.js\na\nb\n");
}

#[test]
fn path_comment_with_trailing_prose_is_kept() {
    for style in STYLES {
        let (prefix, suffix) = style.delimiters();
        let noted = format!("{}path/to/name.ext - extra text{}", prefix, suffix);
        let exact = format!("{}path/to/name.ext{}", prefix, suffix);
        let p = pattern(style);
        assert!(!p.matches(&noted.chars().collect()), "{:?}", noted);
        assert!(p.matches(&exact.chars().collect()), "{:?}", exact);

        let input = format!("code\n{}\n{}\n", noted, exact);
        let (change, out) = run(&input, "test.js", style, true, false);
        assert_eq!(change, Change::HeaderReplaced);
        assert_eq!(out, format!("{}\ncode\n{}\n", style.header("test.js"), noted));

        let (change, out) = run(&input, "test.js", style, false, false);
        assert_eq!(change, Change::HeaderAdded);
        assert_eq!(out, format!("{}\n{}", style.header("test.js"), input));
    }
}

#[test]
fn pattern_grammar() {
    let p = pattern(Style::Slash);
    let yes = [
        "// a/b.rs",
        "//   a/b.rs",
        "  // a/b.rs  ",
        "// /opt/App.tsx",
        "// C:dir\\file.txt",
        "// ./component.tsx",
        "// \\srv\\file.txt",
        "// path\\to\\test4.js",
        "// test.js",
        "// src/lib",
        "// a-b/c_d/e.f.g",
    ];
    let no = [
        "// Another path comment: ./component.tsx",
        "// name",
        "// C:\\dir\\file.txt",
        "//a/b.rs",
        "// two words.txt",
        "/ a/b.rs",
        "# a/b.rs",
        "// a/b.rs */",
        "code(); // a/b.rs",
        "",
        "//",
    ];
    for line in yes {
        assert!(p.matches(&line.chars().collect()), "{:?}", line);
    }
    for line in no {
        assert!(!p.matches(&line.chars().collect()), "{:?}", line);
    }
    assert_eq!(p.comment_style(), Style::Slash);
}

#[test]
fn pattern_text_escapes_the_delimiters() {
    let shape = r"\s*((?:/|\\|[A-Za-z]:)?(?:[\w\-\.]+(?:/|\\))+[\w\-\.]+(?:\.\w+)?|[\w\-\.]+\.\w+)\s*";
    assert_eq!(PathCommentPattern::source(Style::Slash), format!("^(// ){}()$", shape));
    assert_eq!(
        PathCommentPattern::source(Style::SlashStar),
        format!(r"^(/\* ){}( \*/)$", shape)
    );
    assert_eq!(PathCommentPattern::source(Style::Hash), format!(r"^(\# ){}()$", shape));
    assert_eq!(
        PathCommentPattern::source(Style::Xml),
        format!(r"^(<!\-\- ){}( \-\->)$", shape)
    );
    assert_eq!(
        PathCommentPattern::source(Style::DoubleDash),
        format!(r"^(\-\- ){}()$", shape)
    );
}

#[test]
fn refused_pattern_is_an_error_of_the_style() {
    let refused = regex::Regex::new("(");
    assert!(refused.is_err());
    match PathCommentPattern::from_compiled(Style::Xml, refused) {
        Err(e) => assert_eq!(e, PatternError::Rejected(Style::Xml)),
        Ok(_) => panic!("a refused pattern gives no pattern"),
    }
    let text = PathCommentPattern::source(Style::Xml);
    let accepted = PathCommentPattern::from_compiled(Style::Xml, regex::Regex::new(&text));
    assert_eq!(accepted.ok().map(|p| p.comment_style()), Some(Style::Xml));
}

#[test]
fn pattern_of_another_text_is_an_error_of_the_style() {
    let text = PathCommentPattern::source(Style::Hash);
    match PathCommentPattern::from_compiled(Style::Xml, regex::Regex::new(&text)) {
        Err(e) => assert_eq!(e, PatternError::Foreign(Style::Xml)),
        Ok(_) => panic!("the pattern of another style is not the pattern of this one"),
    }
    match PathCommentPattern::from_compiled(Style::Slash, regex::Regex::new(".*")) {
        Err(e) => assert_eq!(e, PatternError::Foreign(Style::Slash)),
        Ok(_) => panic!("an arbitrary expression is not the pattern of a style"),
    }
}

#[test]
fn clean_mode_removes_header_and_stale_lines() {
    let input = "// test.js\n// old/test.js\ncontent();\n// note: keep\n";
    let header = Style::Slash.header("test.js");
    let rewrite = normalize(input, &header, &pattern(Style::Slash), true, true);
    assert_eq!(rewrite.change, Change::HeaderRemoved);
    assert_eq!(rewrite.content, "content();\n// note: keep\n");
    assert_eq!(rewrite.removed, vec!["// old/test.js".to_string()]);
}

#[test]
fn clean_mode_never_inserts_a_header() {
    let (change, out) = run("content();\n", "test.js", Style::Slash, true, true);
    assert_eq!(change, Change::Unchanged);
    assert_eq!(out, "content();\n");

    let (change, out) = run("// a/b.js\ncontent();", "test.js", Style::Slash, true, true);
    assert_eq!(change, Change::HeaderRemoved);
    assert_eq!(out, "content();");

    let (change, out) = run("", "test.js", Style::Slash, true, true);
    assert_eq!(change, Change::HeaderRemoved);
    assert_eq!(out, "\n");
}

#[test]
fn clean_mode_without_stripping_leaves_a_present_header() {
    let input = "// test.js\ncontent();\n";
    let (change, out) = run(input, "test.js", Style::Slash, false, true);
    assert_eq!(change, Change::Unchanged);
    assert_eq!(out, input);
}

#[test]
fn assemble_follows_the_marks() {
    let input = "one\ntwo\nthree\n";
    let rewrite = assemble(input, "# f.py", &vec![false, true, false], false);
    assert_eq!(rewrite.change, Change::HeaderReplaced);
    assert_eq!(rewrite.content, "# f.py\none\nthree\n");
    assert_eq!(rewrite.removed, vec!["two".to_string()]);

    let rewrite = assemble(input, "# f.py", &vec![true], true);
    assert_eq!(rewrite.change, Change::HeaderRemoved);
    assert_eq!(rewrite.content, "two\nthree\n");
    assert_eq!(rewrite.removed, vec!["one".to_string()]);

    let rewrite = assemble(input, "# f.py", &vec![], true);
    assert_eq!(rewrite.change, Change::Unchanged);
    assert_eq!(rewrite.content, input);
    assert!(rewrite.removed.is_empty());

    let rewrite = assemble("# f.py\nbody\n", "# f.py", &vec![false, false, true, true], false);
    assert_eq!(rewrite.change, Change::Unchanged);
    assert_eq!(rewrite.content, "# f.py\nbody\n");
}

#[test]
fn headers_of_every_style() {
    let expected = [
        "// a/b.c",
        "/* a/b.c */",
        "# a/b.c",
        "; a/b.c",
        "<!-- a/b.c -->",
        "-- a/b.c",
        "% a/b.c",
    ];
    for (style, header) in STYLES.iter().zip(expected) {
        assert_eq!(style.header("a/b.c"), header);
        let (change, out) = run("x\n", "a/b.c", *style, true, false);
        assert_eq!(change, Change::HeaderAdded);
        assert_eq!(out, format!("{}\nx\n", header));
    }
}

#[test]
fn stripping_twice_can_change_more_after_a_carriage_return() {
    let (_, once) = run("a\r\r\nb\n", "test.js", Style::Slash, true, false);
    assert_eq!(once, "// test.js\na\r\nb\n");
    let (change, twice) = run(&once, "test.js", Style::Slash, true, false);
    assert_eq!(twice, "// test.js\na\nb\n");
    assert_eq!(change, Change::HeaderAdded);

    let (_, once) = run("a\r\r\nb\n", "test.js", Style::Slash, false, false);
    let (change, twice) = run(&once, "test.js", Style::Slash, false, false);
    assert_eq!(twice, once);
    assert_eq!(change, Change::Unchanged);
}

#[test]
fn cleaning_twice_changes_nothing_more() {
    let inputs = [
        "",
        "content();\n",
        "content();",
        "// test.js\ncontent();\n",
        "// old/path/test.js\ncontent();\n// keep: this\n",
        "a\n\n\n",
        "\n\n",
        "a\n// x/y.js\n\nb",
    ];
    for strip in [false, true] {
        for input in inputs {
            let (_, once) = run(input, "test.js", Style::Slash, strip, true);
            let (change, twice) = run(&once, "test.js", Style::Slash, strip, true);
            assert_eq!(twice, once, "{:?}", input);
            assert_eq!(change, Change::Unchanged, "{:?}", input);
        }
    }
}

#[test]
fn cleaning_twice_can_change_more_on_three_kinds_of_result() {
    let (_, once) = run("// a/b.js", "test.js", Style::Slash, true, true);
    assert_eq!(once, "");
    let (_, twice) = run(&once, "test.js", Style::Slash, true, true);
    assert_eq!(twice, "\n");

    let (_, once) = run("a\r\r\nb\n", "test.js", Style::Slash, true, true);
    assert_eq!(once, "a\r\nb\n");
    let (_, twice) = run(&once, "test.js", Style::Slash, true, true);
    assert_eq!(twice, "a\nb\n");

    let input = "// my file.js\n// my file.js\nbody\n";
    let (_, once) = run(input, "my file.js", Style::Slash, true, true);
    assert_eq!(once, "// my file.js\nbody\n");
    let (_, twice) = run(&once, "my file.js", Style::Slash, true, true);
    assert_eq!(twice, "body\n");
}
