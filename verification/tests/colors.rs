use findit::report::search_file;
use findit::Config;

fn colored_config(list: &[&str]) -> Config {
    colored::control::set_override(true);
    let args: Vec<String> = list.iter().map(|s| s.to_string()).collect();
    match Config::new(args) {
        Ok(cfg) => cfg,
        Err(msg) => panic!("unexpected error: {}", msg),
    }
}

#[test]
fn header_and_line_number_are_coloured() {
    let cfg = colored_config(&["findit", "world"]);
    let mut nfiles = 0;
    let mut nlines = 0;
    let out = search_file("root/a.txt", Some("hello world"), &cfg, &mut nfiles, &mut nlines);
    assert_eq!(
        out,
        vec![
            "\u{1b}[36mroot/a.txt\u{1b}[0m".to_string(),
            " \u{1b}[34m   1\u{1b}[0m: hello world".to_string(),
        ]
    );
}

#[test]
fn mark_of_a_cut_line_is_coloured() {
    let cfg = colored_config(&["findit", "x"]);
    let mut nfiles = 0;
    let mut nlines = 0;
    let line = "x".repeat(90);
    let out = search_file("a.txt", Some(&line), &cfg, &mut nfiles, &mut nlines);
    assert_eq!(
        out[1],
        format!(" \u{1b}[34m   1\u{1b}[0m: {} \u{1b}[34m...\u{1b}[0m", "x".repeat(80))
    );
}

#[test]
fn skipped_file_is_coloured() {
    let cfg = colored_config(&["findit", "x"]);
    let mut nfiles = 0;
    let mut nlines = 0;
    let out = search_file("root\\b.dat", None, &cfg, &mut nfiles, &mut nlines);
    assert_eq!(
        out,
        vec!["\u{1b}[36mroot/b.dat\u{1b}[0m \u{1b}[31mskipped\u{1b}[0m".to_string()]
    );
}

#[test]
fn colour_is_taken_up_again_after_a_reset_inside_the_path() {
    let cfg = colored_config(&["findit", "x"]);
    let mut nfiles = 0;
    let mut nlines = 0;
    let out = search_file("a\u{1b}[0mb", Some("x"), &cfg, &mut nfiles, &mut nlines);
    assert_eq!(out[0], "\u{1b}[36ma\u{1b}[0m\u{1b}[36mb\u{1b}[0m");
}

#[test]
fn line_of_eighty_characters_has_no_mark() {
    let cfg = colored_config(&["findit", "x"]);
    let mut nfiles = 0;
    let mut nlines = 0;
    let line = "x".repeat(80);
    let out = search_file("a.txt", Some(&line), &cfg, &mut nfiles, &mut nlines);
    assert_eq!(out[1], format!(" \u{1b}[34m   1\u{1b}[0m: {}", line));
}
