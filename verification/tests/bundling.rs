use catrina::config::{standard_config, Config};
use catrina::css::{Parser as CssParser, RelationCSSFont};
use catrina::errors::CatrinaError;
use catrina::import::Import;
use catrina::js::Parser as JsParser;
use catrina::project::{auto_project, Project, StartStep};
use catrina::utils::{file_to_vec_string, FileEntry, FileSet};

fn v(items: &[&str]) -> Vec<String> {
    items.iter().map(|s| s.to_string()).collect()
}

fn config() -> Config {
    let mut c = standard_config("demo", "/w");
    c.location_lib = "/w/node_modules/catrina".to_string();
    c
}

fn files(entries: &[(&str, &str)]) -> FileSet {
    FileSet {
        entries: entries
            .iter()
            .map(|(p, t)| FileEntry { path: p.to_string(), text: t.to_string() })
            .collect(),
    }
}

fn import(names: &[&str], path: &str) -> Import {
    Import { names: v(names), path: path.to_string() }
}

#[test]
fn extract_import_keeps_only_the_path() {
    let i = CssParser::extract_import("@import \"catrina/css/alerts.css\";\n");
    assert!(i.names.is_empty());
    assert_eq!(i.path, "catrina/css/alerts.css");
}

#[test]
fn plan_recursive_imports_starts_at_colors_marker() {
    let content = v(&[
        "@import \"../css/early.css\";\n",
        "/*Colors*/\n",
        "@import \"../css/core.css\";\n",
        "@import \"../css/buttons.css\";\n",
        "body {}\n",
    ]);
    let list = vec![import(&[], "node_modules/catrina/css/alerts.css")];
    let (skip, imps) = CssParser::plan_recursive_imports(&content, &list);
    assert_eq!(skip, vec![2, 3]);
    assert_eq!(imps.len(), 1);
    assert_eq!(imps[0].path, "../css/buttons.css");
}

#[test]
fn plan_recursive_imports_repeats_per_other_import_then_dedups() {
    let content = v(&["/*Colors*/\n", "@import \"../a.css\";\n", "@import \"../a.css\";\n"]);
    let list = vec![import(&[], "x"), import(&[], "y")];
    let (skip, imps) = CssParser::plan_recursive_imports(&content, &list);
    assert_eq!(skip, vec![1, 2]);
    assert_eq!(imps.len(), 1);
    let none: Vec<Import> = vec![];
    let (_, imps2) = CssParser::plan_recursive_imports(&content, &none);
    assert!(imps2.is_empty());
}

#[test]
fn write_file_exclude_lines_blanks_skipped_lines() {
    let content = v(&["a\n", "@import x;\n", "b\n"]);
    assert_eq!(CssParser::write_file_exclude_lines(&vec![1], &content, "old"), "a\n\nb\n\n");
    assert_eq!(CssParser::write_file_exclude_lines(&vec![], &v(&[]), "old"), "old");
}

#[test]
fn copy_fonts_resolves_font_paths_inside_the_library() {
    let parser = CssParser::new(
        config(),
        vec![
            RelationCSSFont { name: "icons.css".to_string(), path: "./lib/fonts/icons.woff".to_string() },
            RelationCSSFont { name: "other.css".to_string(), path: "./lib/fonts/o.woff".to_string() },
        ],
    );
    let (fonts, res) = parser.copy_fonts(&vec![import(&[], "catrina/css/icons.css")]);
    assert!(res.is_ok());
    assert_eq!(fonts.len(), 1);
    assert_eq!(fonts[0].path, "/w/node_modules/catrina/fonts/icons.woff");
    let (fonts2, res2) = parser.copy_fonts(&vec![import(&[], "catrina/css/icons.css"), import(&[], "/")]);
    assert_eq!(fonts2.len(), 1);
    assert!(matches!(res2, Err(CatrinaError::NoFileName)));
}

#[test]
fn css_print_imports_reads_first_inside_cwd() {
    let parser = CssParser::new(config(), vec![]);
    let fs = files(&[("/w/catrina/a.css", "A\n"), ("catrina/b.css", "B\n")]);
    let imps = vec![import(&[], "catrina/a.css"), import(&[], "catrina/b.css")];
    let (out, fonts) = parser.print_imports(&imps, &fs, "/w", "core\n");
    assert_eq!(out.unwrap(), "core\nA\n\n\nB\n\n\n");
    assert!(fonts.is_empty());
    let (missing, none) = parser.print_imports(&vec![import(&[], "catrina/c.css")], &fs, "/w", "");
    assert!(matches!(missing, Err(CatrinaError::FileNotRead(p)) if p == "/w/catrina/c.css"));
    assert!(none.is_empty());
}

#[test]
fn css_print_imports_gives_the_fonts_to_copy() {
    let fonts = vec![RelationCSSFont { name: "a.css".to_string(), path: "./lib/fonts/a.woff".to_string() }];
    let parser = CssParser::new(config(), fonts);
    let fs = files(&[("/w/catrina/a.css", "A\n"), ("/", "")]);
    let (out, copy) = parser.print_imports(&vec![import(&[], "catrina/a.css")], &fs, "/w", "");
    assert_eq!(out.unwrap(), "A\n\n\n");
    assert_eq!(copy.len(), 1);
    assert_eq!(copy[0].path, "/w/node_modules/catrina/fonts/a.woff");
    let (bad, copy2) =
        parser.print_imports(&vec![import(&[], "catrina/a.css"), import(&[], "/")], &fs, "/w", "");
    assert!(matches!(bad, Err(CatrinaError::NoFileName)));
    assert_eq!(copy2.len(), 1);
}

#[test]
fn css_import_without_parent_marker_is_not_read() {
    let parser = CssParser::new(config(), vec![]);
    let fs = files(&[("", "x {}\n")]);
    let r = parser.print_import_file_no_imports(&import(&[], "css/b.css"), &fs, "t\n");
    assert!(matches!(r, Err(CatrinaError::FileNotRead(p)) if p.is_empty()));
}

#[test]
fn css_recursive_imports_appends_library_sheets() {
    let parser = CssParser::new(config(), vec![]);
    let fs = files(&[("/w/node_modules/catrina/css/b.css", "@import \"z\";\nb {}\n")]);
    let temp = "/*Colors*/\n@import \"../css/b.css\";\nmain {}\n";
    let list = vec![import(&[], "other")];
    let out = parser.recursive_imports(temp, &list, &fs).unwrap();
    assert_eq!(out, "/*Colors*/\n\nmain {}\n\nb {}\n\n");
    let err = parser.recursive_imports(temp, &list, &files(&[]));
    assert!(matches!(err, Err(CatrinaError::FileNotRead(_))));
}

#[test]
fn css_minify_changes_the_text() {
    let out = CssParser::minify_file_content(".foo > p {\n    color: red;\n}\n").unwrap();
    assert_ne!(out, ".foo > p {\n    color: red;\n}\n");
    assert!(out.len() < ".foo > p {\n    color: red;\n}\n".len());
}

#[test]
fn obtain_names_reads_the_brace_list() {
    let names = JsParser::obtain_names("export {Alert, salert, another,next} from \"./alerts/alert.js\"").unwrap();
    assert_eq!(names, v(&["Alert", "salert", "another", "next"]));
    assert!(matches!(JsParser::obtain_names("import x from \"y\""), Err(CatrinaError::NoCoincidences)));
}

#[test]
fn obtain_path_reads_the_quoted_path() {
    let p = JsParser::obtain_path("export {Alert} from \"./alerts/alert.js\"").unwrap();
    assert_eq!(p, "alerts/alert.js");
    assert!(matches!(JsParser::obtain_path("import {a} from x"), Err(CatrinaError::NoCoincidences)));
}

#[test]
fn new_import_by_line_matches_documented_example() {
    let line = "export {Alert, salert, another,next} from \"./alerts/alert.js\"";
    let i = JsParser::new_import_by_line(line, &standard_config("", "/w"), false).unwrap();
    assert_eq!(i.names, v(&["Alert", "salert", "another", "next"]));
    assert_eq!(i.path, "alerts/alert.js");
    let c = JsParser::new_import_by_line(line, &config(), true).unwrap();
    assert_eq!(c.path, "/w/node_modules/catrina/alerts/alert.js");
}

#[test]
fn search_name_in_content_takes_export_blocks() {
    let content = v(&[
        "const x = 1;\n",
        "export function Alert() {\n",
        "  return 1;\n",
        "}\n",
        "//@stop\n",
        "export function Other() {}\n",
    ]);
    let out = JsParser::search_name_in_content("Alert", &content);
    assert_eq!(out, v(&["export function Alert() {\n", "  return 1;\n", "}\n"]));
}

fn js_parser() -> JsParser {
    JsParser::new(
        vec![import(&["Alert", "salert"], "lib/alerts.js"), import(&["Button"], "lib/button.js")],
        config(),
    )
}

#[test]
fn search_path_in_directory_finds_first_module() {
    let p = js_parser();
    assert_eq!(p.search_path_in_directory("salert"), Some("lib/alerts.js".to_string()));
    assert_eq!(p.search_path_in_directory("Nope"), None);
}

#[test]
fn js_recursive_and_print_imports() {
    let p = js_parser();
    let fs = files(&[
        ("lib/alerts.js", "import {Button} from \"./button.js\"\nexport function Alert() {}\n//@stop\n"),
        ("lib/button.js", "export function Button() {}\n//@stop\n"),
    ]);
    let full = p.recursive_imports(&import(&["Alert"], "x"), &fs).unwrap();
    assert_eq!(full.names, v(&["Alert", "Button"]));
    let out = p.print_imports(&import(&["Alert"], "x"), &fs, "core\n").unwrap();
    assert_eq!(out, "core\nexport function Alert() {}\n\nexport function Button() {}\n\n");
    assert!(matches!(
        p.recursive_imports(&import(&["Missing"], "x"), &fs),
        Err(CatrinaError::ImportNotInCatrina)
    ));
    assert!(matches!(
        p.recursive_imports(&import(&["Alert"], "x"), &files(&[])),
        Err(CatrinaError::FileNotRead(_))
    ));
}

#[test]
fn js_minify_changes_the_text() {
    let src = "function forEach(data, func) {\n   for (var i = 0; i < data.length; ++i) {\n       func(data[i]);\n   }\n}\n";
    let out = JsParser::minify_file_content(src);
    assert!(out.len() < src.len());
}

#[test]
fn project_start_steps() {
    let project = Project::new(standard_config("demo", "/w"));
    let steps = project.start();
    assert_eq!(steps.len(), 7);
    assert!(matches!(&steps[0], StartStep::WriteConfig));
    assert!(matches!(&steps[1], StartStep::CreateInputFile(p) if p == "input.js"));
    assert!(matches!(&steps[4], StartStep::CreateFile(p) if p == "deploy/demo.main.js"));
    assert!(matches!(&steps[6], StartStep::ShowConfig));
    let (auto, auto_steps) = auto_project("demo", "/w");
    assert_eq!(auto.config.out_css, "demo.styles.css");
    assert_eq!(auto_steps.len(), 7);
}

#[test]
fn get_imports_js_reads_library_lines() {
    let project = Project::new(config());
    let lines = v(&[
        "import {core} from \"catrina/core.js\"",
        "import {Alert} from \"catrina/alerts.js\"",
        "const a = 1;",
    ]);
    let mut counter = 0;
    let imps = project.get_imports_js(&lines, &mut counter).unwrap();
    assert_eq!(imps.len(), 1);
    assert_eq!(imps[0].names, v(&["Alert"]));
    assert_eq!(counter, 1);
}

#[test]
fn get_imports_css_reads_library_lines() {
    let project = Project::new(config());
    let lines = v(&["@import \"catrina/core.css\";", "@import \"catrina/a.css\";", "body {}"]);
    let mut counter = 7;
    let imps = project.get_imports_css(&lines, &mut counter);
    assert_eq!(imps.len(), 1);
    assert_eq!(imps[0].path, "catrina/a.css");
    assert_eq!(counter, 1);
    let mut untouched = 7;
    assert!(project.get_imports_css(&v(&["body {}"]), &mut untouched).is_empty());
    assert_eq!(untouched, 7);
}

#[test]
fn copy_all_content_takes_lines_after_start() {
    assert_eq!(Project::copy_all_content(0, "a\nb\nc\n", "t"), "tb\nc\n\n");
    assert_eq!(Project::copy_all_content_in_start(1, "a\nb\nc\n", "t\n"), "c\n\nt\n\n");
    assert_eq!(Project::copy_all_content_in_start(5, "a\n", "t\n"), "t\n");
}

#[test]
fn remove_js_exports_drops_imports_and_export_words() {
    let project = Project::new(config());
    let out = project.remove_js_exports("import {a} from \"b\"\nexport function f() {}\n");
    assert_eq!(out, "function f() {}\n\n");
    let mut m = config();
    m.module = true;
    assert_eq!(Project::new(m).remove_js_exports("export x\n"), "export x\n");
}

#[test]
fn build_js_puts_entry_code_first() {
    let project = Project::new(config());
    let dir = vec![import(&["Alert"], "lib/alerts.js")];
    let fs = files(&[("lib/alerts.js", "export function Alert() {}\n//@stop\n")]);
    let input = "import {Alert} from \"catrina/alerts.js\"\nAlert();\n";
    let out = project.build_js("", dir, input, &fs).unwrap();
    assert_eq!(out, "Alert();\n\nfunction Alert() {}\n\n\n\n");
    assert_eq!(file_to_vec_string(&out).len(), 6);
}

#[test]
fn build_css_in_two_parts() {
    let project = Project::new(config());
    let parser = CssParser::new(config(), vec![]);
    let fs = files(&[("/w/catrina/a.css", "a {}\n")]);
    let lines = v(&["@import \"catrina/a.css\";", "body {}"]);
    let (started, fonts) = project.build_css_start(&parser, "", &lines, &fs, "/w");
    assert!(fonts.is_empty());
    let (temp, imps, start) = started.unwrap();
    assert_eq!(temp, "a {}\n\n\n");
    assert_eq!(start, 0);
    let out = project
        .build_css_finish(&parser, &temp, &imps, start, "@import \"catrina/a.css\";\nbody {}\n", &fs)
        .unwrap();
    assert_eq!(out, "body {}\n\na {}\n\n\n\n\n");
}

#[test]
fn backup_paths() {
    let mut c = config();
    c.deploy_path = "./deploy".to_string();
    let project = Project::new(c);
    assert_eq!(project.backup_source("/w"), "/w/deploy");
    assert_eq!(Project::backup_destination("/w", "abc"), "/w/.abc");
}

#[test]
fn extract_import_reads_back_the_written_path() {
    for x in ["../catrina/alerts.css", "", "a b/c.css", "é/ü.css"] {
        let i = CssParser::extract_import(&format!("@import \"{}\";\n", x));
        assert!(i.names.is_empty());
        assert_eq!(i.path, x);
    }
}
