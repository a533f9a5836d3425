use findit::filter::{
    file_extension, file_is_interesting, file_name, fileext_implies_binary, is_ignored,
    lookup_extension,
};
use findit::walk::{try_visit_entry, try_visit_root, visit_entry, visit_root, Visit};
use findit::Config;
use std::path::Path;

fn walk_config(list: &[&str]) -> Config {
    let args: Vec<String> = list.iter().map(|s| s.to_string()).collect();
    match Config::new(args) {
        Ok(cfg) => cfg,
        Err(msg) => panic!("unexpected error: {}", msg),
    }
}

const TEXT: [&str; 31] = [
    "cpp", "c", "cc", "css", "cs", "ck", "go", "html", "htm", "h", "hpp", "ini", "inl", "ino",
    "java", "js", "json", "jsmk", "mel", "md", "py", "pymk", "rc", "rs", "tcl", "txt", "tpp",
    "toml", "xml", "yaml", "yml",
];

const BINARY: [&str; 57] = [
    "a", "apk", "avi", "bkm", "bin", "class", "db", "db-wal", "db-shm", "dll", "dis", "dtex",
    "elf", "env", "exe", "exr", "exp", "gif", "gz", "icns", "ilk", "ipch", "jar", "lib", "Lib",
    "nib", "o", "obj", "png", "pic", "pyc", "pyo", "pdb", "pdf", "ptc", "rtf", "rib", "sf2", "sdf",
    "shm", "sl", "slo", "so", "suo", "swp", "sqlite", "sql", "tar", "tgz", "tif", "tiff", "tex",
    "ttf", "wav", "xpm", "zip", "z",
];

#[test]
fn table_knows_every_text_extension() {
    for ext in TEXT {
        assert_eq!(lookup_extension(ext), Some(true), "{}", ext);
        assert!(!fileext_implies_binary(ext), "{}", ext);
    }
}

#[test]
fn table_knows_every_binary_extension() {
    for ext in BINARY {
        assert_eq!(lookup_extension(ext), Some(false), "{}", ext);
        assert!(fileext_implies_binary(ext), "{}", ext);
    }
}

#[test]
fn unlisted_extensions_are_taken_for_binary() {
    for ext in ["xyz", "", "TXT", "Rs", "txt ", "jpeg", "rst", "t"] {
        assert_eq!(lookup_extension(ext), None, "{}", ext);
        assert!(fileext_implies_binary(ext), "{}", ext);
    }
}

#[test]
fn extension_is_what_follows_the_last_dot() {
    assert_eq!(file_extension("a.txt"), Some("txt"));
    assert_eq!(file_extension("a.b.c"), Some("c"));
    assert_eq!(file_extension("archive.tar.gz"), Some("gz"));
    assert_eq!(file_extension("foo."), Some(""));
    assert_eq!(file_extension("..a"), Some("a"));
    assert_eq!(file_extension("..."), Some(""));
    assert_eq!(file_extension("\u{e4}.\u{f6}\u{fc}"), Some("\u{f6}\u{fc}"));
}

#[test]
fn some_names_have_no_extension() {
    assert_eq!(file_extension("Makefile"), None);
    assert_eq!(file_extension(".bashrc"), None);
    assert_eq!(file_extension(""), None);
    assert_eq!(file_extension("."), None);
    assert_eq!(file_extension(".."), None);
}

#[test]
fn extension_agrees_with_the_standard_library_on_file_names() {
    for name in [
        "a.txt", "a.b.c", "foo.", "..a", "...", "Makefile", ".bashrc", "", ".", "..", ".a.b",
        "x.tar.gz", "a..b", "\u{e4}.\u{f6}", " .x", "name.with space",
    ] {
        let expected = Path::new(name).extension().and_then(|e| e.to_str());
        assert_eq!(file_extension(name), expected, "{:?}", name);
    }
}

#[test]
fn unlisted_extension_is_not_searched_without_filter() {
    let cfg = walk_config(&["findit", "needle"]);
    let mut ndirs = 0;
    for name in ["data.xyz", "photo.jpeg", "README.TXT", "notes.", "a.b.unknown"] {
        assert!(!file_is_interesting(name, &cfg), "{}", name);
        assert_eq!(visit_entry(name, false, &cfg, &mut ndirs), Visit::Pass, "{}", name);
    }
    assert_eq!(ndirs, 0);
}

#[test]
fn without_filter_text_and_plain_names_are_searched() {
    let cfg = walk_config(&["findit", "needle"]);
    assert!(file_is_interesting("main.rs", &cfg));
    assert!(file_is_interesting("Makefile", &cfg));
    assert!(file_is_interesting(".gitignore", &cfg));
    assert!(!file_is_interesting("a.out.exe", &cfg));
    assert!(!file_is_interesting("lib.so", &cfg));
}

#[test]
fn hello_world_tree_searches_text_and_passes_binary() {
    let cfg = walk_config(&["findit", "root", "world"]);
    let mut ndirs = 0;
    assert_eq!(visit_root(true, &mut ndirs), Visit::Descend);
    assert_eq!(visit_entry("a.txt", false, &cfg, &mut ndirs), Visit::Search);
    assert_eq!(visit_entry("b.bin", false, &cfg, &mut ndirs), Visit::Pass);
    assert_eq!(ndirs, 1);
    let mut nlines = 0;
    let found = findit::search(cfg.query(), "hello world", &cfg, &mut nlines);
    assert_eq!(found, vec![("hello world", 1)]);
}

#[test]
fn filter_decides_alone() {
    let cfg = walk_config(&["findit", "-x", "txt", "needle"]);
    let mut ndirs = 0;
    assert_eq!(visit_entry("x.txt", false, &cfg, &mut ndirs), Visit::Search);
    assert_eq!(visit_entry("x.md", false, &cfg, &mut ndirs), Visit::Pass);
    assert_eq!(visit_entry("txt", false, &cfg, &mut ndirs), Visit::Pass);
    assert_eq!(visit_entry("x.TXT", false, &cfg, &mut ndirs), Visit::Pass);
    assert_eq!(visit_entry("Makefile", false, &cfg, &mut ndirs), Visit::Pass);
}

#[test]
fn filter_admits_extensions_the_table_calls_binary_or_does_not_list() {
    let cfg = walk_config(&["findit", "-x", "bin", "needle"]);
    assert!(file_is_interesting("b.bin", &cfg));
    assert!(!file_is_interesting("a.txt", &cfg));
    let cfg = walk_config(&["findit", "-x", "xyz", "needle"]);
    assert!(file_is_interesting("data.xyz", &cfg));
}

#[test]
fn node_modules_is_never_entered() {
    let mut ndirs = 0;
    for list in [&["findit", "needle"][..], &["findit", "-x", "js", "needle"][..]] {
        let cfg = walk_config(list);
        assert_eq!(visit_entry("node_modules", true, &cfg, &mut ndirs), Visit::Ignore);
    }
    assert_eq!(ndirs, 0);
}

#[test]
fn every_ignored_name_is_ignored() {
    let cfg = walk_config(&["findit", "needle"]);
    let mut ndirs = 0;
    for name in [
        "_built", "_install", "_publish", "_package", "_unused", "node_modules", ".git", ".built",
        "target",
    ] {
        assert!(is_ignored(name), "{}", name);
        assert_eq!(visit_entry(name, true, &cfg, &mut ndirs), Visit::Ignore, "{}", name);
    }
    assert_eq!(ndirs, 0);
}

#[test]
fn other_directories_are_entered_and_counted() {
    let cfg = walk_config(&["findit", "-x", "rs", "needle"]);
    let mut ndirs = 3;
    for name in ["src", "Target", "node_modules2", ".github", "a.txt", "built"] {
        assert!(!is_ignored(name), "{}", name);
        assert_eq!(visit_entry(name, true, &cfg, &mut ndirs), Visit::Descend, "{}", name);
    }
    assert_eq!(ndirs, 9);
}

#[test]
fn ignored_names_concern_directories_only() {
    let cfg = walk_config(&["findit", "needle"]);
    let mut ndirs = 0;
    assert_eq!(visit_entry("target", false, &cfg, &mut ndirs), Visit::Search);
    assert_eq!(visit_entry(".git", false, &cfg, &mut ndirs), Visit::Search);
}

#[test]
fn start_of_the_walk() {
    let mut ndirs = 0;
    assert_eq!(visit_root(true, &mut ndirs), Visit::Descend);
    assert_eq!(ndirs, 1);
    assert_eq!(visit_root(false, &mut ndirs), Visit::Pass);
    assert_eq!(ndirs, 1);
}

#[test]
fn name_is_what_follows_the_last_separator() {
    assert_eq!(file_name("a.txt"), "a.txt");
    assert_eq!(file_name("dir/a.txt"), "a.txt");
    assert_eq!(file_name("/abs/dir.d/Makefile"), "Makefile");
    assert_eq!(file_name("C:\\dir\\a.txt"), "a.txt");
    assert_eq!(file_name("mixed/dir\\a.txt"), "a.txt");
    assert_eq!(file_name("mixed\\dir/a.txt"), "a.txt");
    assert_eq!(file_name("dir/"), "");
    assert_eq!(file_name(""), "");
    assert_eq!(file_name("/"), "");
    assert_eq!(file_name("\u{e4}/\u{f6}"), "\u{f6}");
}

#[test]
fn extension_is_taken_from_the_name_and_not_from_a_directory() {
    assert_eq!(file_extension("dir.d/Makefile"), None);
    assert_eq!(file_extension("dir.d/a.txt"), Some("txt"));
    assert_eq!(file_extension("dir.d\\Makefile"), None);
    assert_eq!(file_extension("a.b/.hidden"), None);
    assert_eq!(file_extension("a.b/.."), None);
    assert_eq!(file_extension("/x.tar.gz"), Some("gz"));
}

#[test]
fn extension_agrees_with_the_standard_library_on_paths() {
    for path in [
        "dir.d/Makefile", "dir.d/a.txt", "/abs/x.tar.gz", "a/b/c", "a.b/.hidden", "a.b/..",
        "./a.rs", "../a.rs", "/a.", "root/sub.dir/file.name.ext", "root/..a", "a/.b.c",
    ] {
        let expected = Path::new(path).extension().and_then(|e| e.to_str());
        assert_eq!(file_extension(path), expected, "{:?}", path);
    }
}

#[test]
fn file_in_a_dotted_directory_is_judged_by_its_own_name() {
    let cfg = walk_config(&["findit", "needle"]);
    let mut ndirs = 0;
    assert!(file_is_interesting("dir.d/Makefile", &cfg));
    assert!(file_is_interesting("dir.bin/a.txt", &cfg));
    assert!(!file_is_interesting("dir.txt/a.bin", &cfg));
    assert_eq!(visit_entry("dir.d/Makefile", false, &cfg, &mut ndirs), Visit::Search);
    let cfg = walk_config(&["findit", "-x", "txt", "needle"]);
    assert!(!file_is_interesting("dir.txt/Makefile", &cfg));
    assert!(file_is_interesting("dir.md/a.txt", &cfg));
}

#[test]
fn ignored_directory_is_known_by_its_name_at_any_depth() {
    let cfg = walk_config(&["findit", "-x", "js", "needle"]);
    let mut ndirs = 0;
    for path in ["node_modules", "root/node_modules", "root/a/b/node_modules", "C:\\x\\.git"] {
        assert_eq!(visit_entry(path, true, &cfg, &mut ndirs), Visit::Ignore, "{}", path);
    }
    assert_eq!(visit_entry("node_modules/lib", true, &cfg, &mut ndirs), Visit::Descend);
    assert_eq!(ndirs, 1);
}

#[test]
fn ignored_directory_needs_no_room_in_the_counter() {
    let cfg = walk_config(&["findit", "needle"]);
    let mut ndirs = u32::MAX;
    for name in [
        "_built", "_install", "_publish", "_package", "_unused", "node_modules", ".git", ".built",
        "target",
    ] {
        assert_eq!(visit_entry(name, true, &cfg, &mut ndirs), Visit::Ignore, "{}", name);
        assert_eq!(try_visit_entry(name, true, &cfg, &mut ndirs), Some(Visit::Ignore));
    }
    assert_eq!(visit_entry("a.txt", false, &cfg, &mut ndirs), Visit::Search);
    assert_eq!(try_visit_entry("a.bin", false, &cfg, &mut ndirs), Some(Visit::Pass));
    assert_eq!(ndirs, u32::MAX);
}

#[test]
fn checked_decision_refuses_only_a_directory_that_cannot_be_counted() {
    let cfg = walk_config(&["findit", "needle"]);
    let mut ndirs = u32::MAX;
    assert_eq!(try_visit_entry("src", true, &cfg, &mut ndirs), None);
    assert_eq!(try_visit_entry("Target", true, &cfg, &mut ndirs), None);
    assert_eq!(try_visit_root(true, &mut ndirs), None);
    assert_eq!(try_visit_root(false, &mut ndirs), Some(Visit::Pass));
    assert_eq!(ndirs, u32::MAX);
    let mut ndirs = u32::MAX - 1;
    assert_eq!(try_visit_entry("src", true, &cfg, &mut ndirs), Some(Visit::Descend));
    assert_eq!(ndirs, u32::MAX);
    let mut ndirs = 0;
    assert_eq!(try_visit_root(true, &mut ndirs), Some(Visit::Descend));
    assert_eq!(ndirs, 1);
}
