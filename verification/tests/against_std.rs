use pathcomment::paths::{git_root_candidates, path_extension, path_parts, relative_to};
use pathcomment::text;
use std::path::{Component, Path, PathBuf};

const PATHS: [&str; 28] = [
    "",
    "/",
    ".",
    "..",
    "a",
    "a.b",
    "a.b.c",
    ".hidden",
    ".hidden.txt",
    "a/b.txt",
    "a/b.txt/",
    "a/b.txt/.",
    "a/b.txt//",
    "a/./b.rs",
    "a/..",
    "a/../b.rs",
    "/a/b/c.d",
    "//a//b//c.d",
    "./a/b.rs",
    "a/b/",
    "x..y",
    "dir/...",
    "dir/..a",
    "a/.b.",
    "name.",
    "a b/c d.e f",
    "/tmp/work/node_modules/mypackage/index.js",
    "é/ü.ñ",
];

#[test]
fn whitespace_is_what_char_says() {
    for code in 0..=0x10ffffu32 {
        if let Some(c) = char::from_u32(code) {
            assert_eq!(text::whitespace(c), c.is_whitespace(), "U+{:04X}", code);
        }
    }
}

#[test]
fn extension_is_what_path_says() {
    for path in PATHS {
        let expected = Path::new(path).extension().map(|e| e.to_string_lossy().into_owned());
        assert_eq!(path_extension(path), expected, "{:?}", path);
    }
}

#[test]
fn named_parts_are_the_normal_components() {
    for path in PATHS {
        let expected: Vec<String> = Path::new(path)
            .components()
            .filter_map(|c| match c {
                Component::Normal(name) => Some(name.to_string_lossy().into_owned()),
                _ => None,
            })
            .collect();
        let got: Vec<String> = path_parts(&path.chars().collect())
            .iter()
            .map(|p| p.iter().collect::<String>())
            .filter(|p| p != "..")
            .collect();
        assert_eq!(got, expected, "{:?}", path);
    }
}

#[test]
fn candidates_are_the_path_and_its_parents() {
    for path in ["/a/b/c", "/a", "/", "a/b", "a", "/tmp/work/my_repo/code"] {
        let mut expected = Vec::new();
        let mut current = PathBuf::from(path);
        loop {
            expected.push(current.to_string_lossy().into_owned());
            if !current.pop() {
                break;
            }
        }
        assert_eq!(git_root_candidates(path), expected, "{:?}", path);
    }
}

#[test]
fn relative_path_is_what_strip_prefix_gives() {
    let bases = ["/tmp/work", "/tmp/work/", "/", "/tmp", "/other", "work", ""];
    let paths = [
        "/tmp/work/test.js",
        "/tmp/work/src/main.rs",
        "/tmp/workshop/main.rs",
        "/tmp/work",
        "/elsewhere/x.py",
        "work/a/b.c",
        "a/b.c",
    ];
    for base in bases {
        for path in paths {
            let stripped = match Path::new(path).strip_prefix(base) {
                Ok(rel) => rel.to_path_buf(),
                Err(_) => PathBuf::from(path),
            };
            let expected = stripped.to_string_lossy().replace('\\', "/");
            let expected = expected.trim_start_matches("./").to_string();
            assert_eq!(relative_to(path, base), expected, "{:?} under {:?}", path, base);
        }
    }
}

#[test]
fn lines_and_trim_are_what_str_says() {
    let texts = [
        "",
        "\n",
        "\r\n",
        "a\nb",
        "a\r\nb\r\n",
        "a\rb\n",
        "a\r\r\n\r",
        "\n\n\na\n\n",
        " \t x y \u{a0}\n",
        "\u{2028}k\u{2029}",
    ];
    for t in texts {
        let expected: Vec<String> = t.lines().map(|l| l.to_string()).collect();
        let got: Vec<String> = text::split_lines(&t.chars().collect())
            .iter()
            .map(|l| l.iter().collect())
            .collect();
        assert_eq!(got, expected, "{:?}", t);
        let trimmed: String = text::trim(&t.chars().collect()).iter().collect();
        assert_eq!(trimmed, t.trim(), "{:?}", t);
        let words: Vec<String> = text::split_whitespace(&t.chars().collect())
            .iter()
            .map(|w| w.iter().collect())
            .collect();
        let expected: Vec<&str> = t.split_whitespace().collect();
        assert_eq!(words, expected, "{:?}", t);
    }
}
