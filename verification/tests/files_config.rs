use catrina::config::standard_config;
use catrina::utils::{
    conditional_write_vec_string_in_file, file_to_vec_string, random_name,
    write_vec_string_in_file, write_vec_string_in_file_start, FileEntry, FileSet,
};
use std::io::{BufRead, BufReader};

fn v(items: &[&str]) -> Vec<String> {
    items.iter().map(|s| s.to_string()).collect()
}

fn read_line_by_line(text: &str) -> Vec<String> {
    let mut reader = BufReader::new(text.as_bytes());
    let mut out = vec![];
    let mut line = String::new();
    while reader.read_line(&mut line).unwrap() > 0 {
        out.push(line.clone());
        line.clear();
    }
    out
}

#[test]
fn file_to_vec_string_reads_lines_with_their_feeds() {
    for text in ["", "a", "a\n", "a\nb", "a\n\nb\n", "\n\n", "é\r\nx"] {
        let lines = file_to_vec_string(text);
        assert_eq!(lines, read_line_by_line(text));
        assert_eq!(lines.concat(), text);
    }
}

#[test]
fn write_vec_string_in_file_appends_lines_and_feed() {
    assert_eq!(write_vec_string_in_file("old\n", &v(&["a\n", "b\n"])), "old\na\nb\n\n");
    assert_eq!(write_vec_string_in_file("old", &v(&[])), "old");
}

#[test]
fn conditional_write_skips_import_lines() {
    let content = v(&["@import \"x.css\";\n", "body {}\n", "p {}\n"]);
    assert_eq!(
        conditional_write_vec_string_in_file("", &content, |_a: usize, b: &String| !b.contains("@import")),
        "body {}\np {}\n\n"
    );
    assert_eq!(
        conditional_write_vec_string_in_file("", &content, |_a: usize, _b: &String| true),
        "@import \"x.css\";\nbody {}\np {}\n\n"
    );
}

#[test]
fn conditional_write_keeps_even_indexed_lines() {
    let content = v(&["l0\n", "l1\n", "l2\n", "l3\n", "l4\n"]);
    assert_eq!(
        conditional_write_vec_string_in_file("old\n", &content, |a: usize, _b: &String| a % 2 == 0),
        "old\nl0\nl2\nl4\n\n"
    );
    assert_eq!(
        conditional_write_vec_string_in_file("old\n", &v(&[]), |_a: usize, _b: &String| true),
        "old\n"
    );
}

#[test]
fn write_at_start_puts_lines_in_front() {
    assert_eq!(write_vec_string_in_file_start("core\n", &v(&["a\n", "b\n"])), "a\nb\n\ncore\n\n");
    assert_eq!(write_vec_string_in_file_start("core\n", &v(&[])), "core\n");
}

#[test]
fn append_read_back_gives_the_text() {
    let text = "line one\nline two";
    let lines = file_to_vec_string(text);
    assert_eq!(write_vec_string_in_file("x", &lines), format!("x{}\n", text));
}

#[test]
fn random_name_is_alphanumeric_of_given_length() {
    let a = random_name(15);
    assert_eq!(a.chars().count(), 15);
    assert!(a.chars().all(|c| c.is_ascii_alphanumeric()));
    assert_eq!(random_name(0), "");
}

#[test]
fn file_set_reads_first_entry_of_a_path() {
    let files = FileSet {
        entries: vec![
            FileEntry { path: "a".to_string(), text: "one".to_string() },
            FileEntry { path: "a".to_string(), text: "two".to_string() },
        ],
    };
    assert_eq!(files.read("a"), Some("one".to_string()));
    assert_eq!(files.read("b"), None);
}

#[test]
fn standard_config_matches_documented_example() {
    let c = standard_config("My-Project", "/home/user/My-Project");
    assert_eq!(c.input_js, "input.js");
    assert_eq!(c.input_css, "input.css");
    assert_eq!(c.deploy_path, "deploy");
    assert_eq!(c.out_js, "My-Project.main.js");
    assert_eq!(c.out_css, "My-Project.styles.css");
    assert_eq!(c.server_port, ":9095");
    assert_eq!(c.location_lib, "/home/user/My-Project/node_modules/catrina");
    assert!(!c.module);
    assert!(!c.minify);
}

#[test]
fn output_paths_are_inside_deploy_path() {
    let c = standard_config("p", "/w");
    assert_eq!(c.out_js_path_buf(), "deploy/p.main.js");
    assert_eq!(c.out_css_path_buf(), "deploy/p.styles.css");
}

#[test]
fn appended_lines_read_back_with_an_empty_line() {
    let old = file_to_vec_string("a\nb\n");
    let added = v(&["c\n", "d\n"]);
    let text = write_vec_string_in_file("a\nb\n", &added);
    let mut expected = old.clone();
    expected.extend(added.iter().cloned());
    expected.push("\n".to_string());
    assert_eq!(file_to_vec_string(&text), expected);
    let from_empty = write_vec_string_in_file("", &added);
    assert_eq!(file_to_vec_string(&from_empty), v(&["c\n", "d\n", "\n"]));
}
