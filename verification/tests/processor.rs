use pathcomment::args::Args;
use pathcomment::cli::{
    base_source, merges_gitignore, searches_git_root, BaseSource, Cli, FileInput, Verdict,
};
use pathcomment::comments::Style as CommentStyle;
use pathcomment::paths::find_git_root;

const ROOT: &str = "/tmp/work";

fn default_args() -> Args {
    Args {
        dir: ROOT.to_string(),
        base: None,
        no_git_base: false,
        extensions: None,
        config_file: None,
        recursive: true,
        dry_run: false,
        comment_style: None,
        force: false,
        strip: true,
        print_extensions: false,
        no_ignore_merge: false,
        clean: false,
    }
}

/// The base directory and whether a `.gitignore` is read, as the program
/// decides them: `repos` are the directories that hold a `.git`.
fn determine_test_paths(args: &Args, repos: &[&str]) -> (String, bool) {
    let git_root = if searches_git_root(args) {
        let candidates = pathcomment::paths::git_root_candidates(&args.dir);
        let has_git: Vec<bool> = candidates.iter().map(|c| repos.contains(&c.as_str())).collect();
        find_git_root(&args.dir, &has_git)
    } else {
        None
    };
    let source = base_source(args, git_root.as_deref());
    let merge = merges_gitignore(args, &source);
    let base_dir = match source {
        BaseSource::Named(base) => format!("{}/{}", ROOT, base),
        BaseSource::GitRoot(root) => root,
        BaseSource::CurrentDir => ROOT.to_string(),
    };
    (base_dir, merge)
}

fn processor(args: Args) -> Cli {
    let (base_dir, _) = determine_test_paths(&args, &[]);
    Cli::new(args, base_dir, None, None)
}

/// Processes a file and returns what the file holds afterwards.
fn process(cli: &mut Cli, path: &str, content: &str) -> String {
    match cli.process_file(path, &FileInput::Text(content.to_string())) {
        Verdict::Write(rewrite) => {
            cli.record_write(true);
            rewrite.content
        }
        _ => content.to_string(),
    }
}

#[test]
fn test_should_process_file() {
    let processor = processor(default_args());

    assert!(processor.should_process_file("test.rs"));
    assert!(processor.should_process_file("test.py"));
    assert!(processor.should_process_file("test.js"));
    assert!(processor.should_process_file("test.tsx"));
    assert!(!processor.should_process_file("test.xyz"));
    assert!(!processor.should_process_file("test"));
}

#[test]
fn test_extensions_filter() {
    let mut args = default_args();
    args.extensions = Some("rs,py".to_string());
    let processor = processor(args);

    assert!(processor.should_process_file("test.rs"));
    assert!(processor.should_process_file("test.py"));
    assert!(!processor.should_process_file("test.js"));
    assert!(!processor.should_process_file("test.tsx"));
}

#[test]
fn test_determine_comment_style() {
    let processor = processor(default_args());

    let style_rs = processor.determine_comment_style("test.rs").unwrap();
    assert_eq!(style_rs.delimiters(), ("// ", ""));
    let style_py = processor.determine_comment_style("test.py").unwrap();
    assert_eq!(style_py.delimiters(), ("# ", ""));
    let style_html = processor.determine_comment_style("test.html").unwrap();
    assert_eq!(style_html.delimiters(), ("<!-- ", " -->"));
}

#[test]
fn test_explicit_comment_style() {
    let mut args = default_args();
    args.comment_style = Some(CommentStyle::Hash);
    let processor = processor(args);

    let style = processor.determine_comment_style("test.rs").unwrap();
    assert_eq!(style.delimiters(), ("# ", ""));
}

#[test]
fn test_process_file_new() {
    let mut processor = processor(default_args());
    let new_content = process(&mut processor, "/tmp/work/test.js", "content();\n");
    assert_eq!("// test.js\ncontent();\n", new_content);
}

#[test]
fn test_process_file_update() {
    let mut processor = processor(default_args());
    let new_content =
        process(&mut processor, "/tmp/work/test.js", "// old/path/test.js\ncontent();\n");
    assert_eq!("// test.js\ncontent();\n", new_content);
}

#[test]
fn test_process_file_dry_run() {
    let old_content = "content();\n";
    let mut args = default_args();
    args.dry_run = true;
    let mut processor = processor(args);

    let verdict =
        processor.process_file("/tmp/work/test.js", &FileInput::Text(old_content.to_string()));
    match verdict {
        Verdict::WouldWrite(rewrite) => assert_eq!("// test.js\ncontent();\n", rewrite.content),
        other => panic!("a dry run writes nothing, got {:?}", other),
    }
    let new_content = process(&mut processor, "/tmp/work/test.js", old_content);
    assert_eq!(old_content, new_content);
    assert_eq!(processor.get_stats(), (2, 0));
}

#[test]
fn test_strip_disabled() {
    let old_content = "// old/path/test.js\ncontent();\n";
    let mut args = default_args();
    args.strip = false;
    let mut processor = processor(args);

    let new_content = process(&mut processor, "/tmp/work/test.js", old_content);
    let expected = "// test.js\n// old/path/test.js\ncontent();\n";
    assert_eq!(expected, new_content);
}

#[test]
fn test_empty_file_comment_addition() {
    let mut processor = processor(default_args());
    let new_content = process(&mut processor, "/tmp/work/App.tsx", "");
    assert_eq!("// App.tsx\n", new_content);
}

#[test]
fn test_base_dir_explicit() {
    let mut args = default_args();
    args.base = Some("project".to_string());
    let (base_dir, gitignore) = determine_test_paths(&args, &[]);
    assert!(!gitignore);
    let mut processor = Cli::new(args, base_dir, None, None);

    let new_content =
        process(&mut processor, "/tmp/work/project/src/main.rs", "fn main(){}\n");
    assert_eq!("// src/main.rs\nfn main(){}\n", new_content);
}

#[test]
fn test_base_dir_git_detect() {
    let mut args = default_args();
    args.dir = "/tmp/work/my_repo/code".to_string();
    let (base_dir, _) = determine_test_paths(&args, &["/tmp/work/my_repo"]);

    assert_eq!(base_dir, "/tmp/work/my_repo");

    let mut processor = Cli::new(args, base_dir, None, None);
    let new_content = process(
        &mut processor,
        "/tmp/work/my_repo/code/lib/util.py",
        "def helper(): pass\n",
    );
    assert_eq!("# code/lib/util.py\ndef helper(): pass\n", new_content);
}

#[test]
fn test_base_dir_no_git_flag() {
    let mut args = default_args();
    args.dir = "/tmp/work/my_repo".to_string();
    args.no_git_base = true;
    let (base_dir, gitignore) = determine_test_paths(&args, &["/tmp/work/my_repo"]);

    assert_eq!(base_dir, ROOT);
    assert!(!gitignore);

    let mut processor = Cli::new(args, base_dir, None, None);
    let new_content = process(&mut processor, "/tmp/work/my_repo/main.rs", "fn main(){}\n");
    assert_eq!("// my_repo/main.rs\nfn main(){}\n", new_content);
}

#[test]
fn test_base_dir_no_git_found_fallback() {
    let mut args = default_args();
    args.dir = "/tmp/work/my_project".to_string();
    let (base_dir, gitignore) = determine_test_paths(&args, &[]);

    assert_eq!(base_dir, ROOT);
    assert!(!gitignore);

    let mut processor = Cli::new(args, base_dir, None, None);
    let new_content =
        process(&mut processor, "/tmp/work/my_project/app.js", "console.log('hi');\n");
    assert_eq!("// my_project/app.js\nconsole.log('hi');\n", new_content);
}

#[test]
fn test_default_ignore_loaded() {
    let processor = processor(default_args());

    assert!(processor.ignored_dirs().contains("node_modules"));
    assert!(processor.ignored_dirs().contains("target"));
    assert!(processor.ignored_dirs().contains(".git"));
    assert!(!processor.ignored_dirs().contains("src"));
}

#[test]
fn test_gitignore_merge() {
    let gitignore_content = r#"
 # Comment line
 build/
 /dist
 *.log
 vendor # Simple name
     "#;

    let mut args = default_args();
    args.dir = "/tmp/work/my_repo".to_string();
    let (base_dir, gitignore) = determine_test_paths(&args, &["/tmp/work/my_repo"]);

    assert_eq!(base_dir, "/tmp/work/my_repo");
    assert!(gitignore);

    let processor = Cli::new(args, base_dir, None, Some(gitignore_content));

    assert!(processor.ignored_dirs().contains("node_modules"));
    assert!(processor.ignored_dirs().contains("build"));
    assert!(processor.ignored_dirs().contains("dist"));
    assert!(processor.ignored_dirs().contains("vendor"));
    assert!(!processor.ignored_dirs().contains("*.log"));
}

#[test]
fn test_gitignore_merge_disabled() {
    let mut args = default_args();
    args.dir = "/tmp/work/my_repo".to_string();
    args.no_ignore_merge = true;
    let (base_dir, gitignore) = determine_test_paths(&args, &["/tmp/work/my_repo"]);

    assert_eq!(base_dir, "/tmp/work/my_repo");
    assert!(!gitignore);

    let text = if gitignore { Some("build/\nvendor\n") } else { None };
    let processor = Cli::new(args, base_dir, None, text);

    assert!(processor.ignored_dirs().contains("node_modules"));
    assert!(processor.ignored_dirs().contains("build"));
    assert!(!processor.ignored_dirs().contains("vendor"));
}

/// Walks the given files as the program does: a file below a directory that is
/// not kept is never met.
fn walk(cli: &mut Cli, files: &[(&str, &str, &str)]) {
    for (dir, path, content) in files {
        if !cli.keeps_entry(true, dir) || !cli.keeps_entry(false, path) {
            continue;
        }
        if cli.should_process_file(path) {
            process(cli, path, content);
        } else {
            cli.record_skipped();
        }
    }
}

#[test]
fn test_directory_skipping_default() {
    let node_modules = "/tmp/work/node_modules/mypackage";
    let test_file = "/tmp/work/node_modules/mypackage/index.js";

    let mut processor = processor(default_args());

    assert!(processor.should_skip_directory(node_modules));
    assert!(processor.should_skip_directory(test_file));

    walk(&mut processor, &[(node_modules, test_file, "module.exports = {};\n")]);
    let (processed, skipped) = processor.get_stats();
    assert_eq!(processed, 0);
    assert_eq!(skipped, 0);
}

#[test]
fn test_directory_skipping_gitignore_merged() {
    let vendor_dir = "/tmp/work/my_repo/vendor/somelib";
    let test_file = "/tmp/work/my_repo/vendor/somelib/lib.js";

    let mut args = default_args();
    args.dir = "/tmp/work/my_repo".to_string();
    let (base_dir, gitignore) = determine_test_paths(&args, &["/tmp/work/my_repo"]);
    assert!(gitignore);
    let mut processor = Cli::new(args, base_dir, None, Some("vendor/\n"));

    assert!(processor.ignored_dirs().contains("vendor"));
    assert!(processor.should_skip_directory(vendor_dir));
    assert!(processor.should_skip_directory(test_file));

    walk(&mut processor, &[(vendor_dir, test_file, "// Lib code\n")]);
    let (processed, skipped) = processor.get_stats();
    assert_eq!(processed, 0);
    assert_eq!(skipped, 0);
}

#[test]
fn test_directory_skipping_force() {
    let node_modules = "/tmp/work/node_modules/mypackage";
    let test_file = "/tmp/work/node_modules/mypackage/index.js";

    let mut args = default_args();
    args.force = true;
    let mut processor = processor(args);

    assert!(!processor.should_skip_directory(node_modules));
    assert!(!processor.should_skip_directory(test_file));

    walk(&mut processor, &[(node_modules, test_file, "module.exports = {};\n")]);
    let (processed, skipped) = processor.get_stats();
    assert_eq!(processed, 1);
    assert_eq!(skipped, 0);
}

#[test]
fn test_relative_path_calculation_standard() {
    let mut args = default_args();
    args.dir = "/tmp/work/src".to_string();
    let (base_dir, _) = determine_test_paths(&args, &[]);
    assert_eq!(base_dir, ROOT);

    let mut processor = Cli::new(args, base_dir, None, None);
    let new_content = process(&mut processor, "/tmp/work/src/test.js", "content();\n");
    assert_eq!("// src/test.js\ncontent();\n", new_content);
}

#[test]
fn test_exact_path_comment_matching() {
    let mut processor = processor(default_args());

    let content_correct = "// test1.js\ncontent();\n";
    assert_eq!(content_correct, process(&mut processor, "/tmp/work/test1.js", content_correct));
    let (_, skipped) = processor.get_stats();
    assert!(skipped > 0);

    let content_wrong_path = "// src/test2.js\ncontent();\n";
    assert_eq!(
        "// test2.js\ncontent();\n",
        process(&mut processor, "/tmp/work/test2.js", content_wrong_path)
    );

    let content_extra = "// test3.js - My note\ncontent();\n";
    assert_eq!(
        "// test3.js\n// test3.js - My note\ncontent();\n",
        process(&mut processor, "/tmp/work/test3.js", content_extra)
    );

    let content_slashes = "// path\\to\\test4.js\ncontent();\n";
    assert_eq!(
        "// test4.js\ncontent();\n",
        process(&mut processor, "/tmp/work/test4.js", content_slashes)
    );
}

#[test]
fn test_multiple_path_comments() {
    let content = "// src/App.tsx\n// /opt/App.tsx\nimport React from 'react';\n// Another path comment: ./component.tsx\n";
    let mut processor = processor(default_args());

    let new_content = process(&mut processor, "/tmp/work/App.tsx", content);
    assert_eq!(
        "// App.tsx\nimport React from 'react';\n// Another path comment: ./component.tsx\n",
        new_content
    );
}

#[test]
fn stale_comment_below_the_header_is_removed_and_counted() {
    let mut processor = processor(default_args());
    let verdict = processor.process_file(
        "/tmp/work/test.js",
        &FileInput::Text("// test.js\n// old/path/test.js\ncontent();\n".to_string()),
    );
    match verdict {
        Verdict::Write(rewrite) => assert_eq!(rewrite.content, "// test.js\ncontent();\n"),
        other => panic!("the stale line is to be removed, got {:?}", other),
    }
    processor.record_write(true);
    assert_eq!(processor.get_stats(), (1, 0));
}
