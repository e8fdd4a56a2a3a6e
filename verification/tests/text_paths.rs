use catrina::paths::{extension, file_name, join_path};
use catrina::text::{contains, replace, split_chars, string_of, trim_str};
use std::path::{Path, PathBuf};

const SAMPLES: &[&str] = &[
    "", "/", "//", ".", "..", "./", "../", "a", "a/", "a//", "a/.", "a/./", "a/..", "/a", "/a/b",
    "a/b/c.txt", "a/b/.hidden", "a/b/c.tar.gz", "./input.js", "deploy", "deploy/", "x/./y",
    "..a", "a..", "...", "./..", "/..", "a.b/c", "noext.", "é/ü.css",
];

#[test]
fn contains_agrees_with_str() {
    for s in SAMPLES {
        for p in ["", "a", "/", "..", "c.t", "é", "xyz"] {
            assert_eq!(contains(s, p), s.contains(p), "{:?} {:?}", s, p);
        }
    }
}

#[test]
fn replace_agrees_with_str() {
    let cases = [
        ("@import \"catrina/alerts.css\";\n", "@import ", ""),
        ("aaaa", "aa", "b"),
        ("aaa", "aa", "b"),
        ("./lib/fonts/./x", "./", ""),
        ("../../css/x.css", "../", ""),
        ("export export function", "export ", ""),
        ("", "x", "y"),
        ("ééé", "é", "e"),
    ];
    for (s, p, r) in cases {
        assert_eq!(replace(s, p, r), s.replace(p, r));
    }
}

#[test]
fn trim_agrees_with_str() {
    for s in ["", "  ", " a ", "\t\nAlert \r", "a b", "\u{3000}x\u{2003}", "\u{85}y"] {
        assert_eq!(trim_str(s), s.trim());
    }
}

#[test]
fn split_agrees_with_str() {
    for s in ["", ",", "a,b", "a,,b,", "Alert, salert, another,next"] {
        let v: Vec<char> = s.chars().collect();
        let pieces: Vec<String> = split_chars(&v, ',').iter().map(|p| string_of(p)).collect();
        let expected: Vec<String> = s.split(',').map(|x| x.to_string()).collect();
        assert_eq!(pieces, expected);
    }
}

#[test]
fn join_path_agrees_with_pathbuf_push() {
    for base in SAMPLES {
        for p in SAMPLES {
            let mut expected = PathBuf::from(base);
            expected.push(p);
            assert_eq!(join_path(base, p), expected.to_str().unwrap(), "{:?} {:?}", base, p);
        }
    }
}

#[test]
fn file_name_agrees_with_path() {
    for s in SAMPLES {
        let expected = Path::new(s).file_name().map(|x| x.to_str().unwrap().to_string());
        assert_eq!(file_name(s), expected, "{:?}", s);
    }
}

#[test]
fn extension_agrees_with_path() {
    for s in SAMPLES {
        let expected = Path::new(s).extension().map(|x| x.to_str().unwrap().to_string());
        assert_eq!(extension(s), expected, "{:?}", s);
    }
}

#[test]
fn file_name_of_pushed_name() {
    for base in SAMPLES {
        let joined = join_path(base, "bundle.main.js");
        assert_eq!(file_name(&joined), Some("bundle.main.js".to_string()));
    }
}

#[test]
fn string_of_keeps_characters() {
    assert_eq!(string_of(&['a', 'é', '/']), "aé/");
    assert_eq!(string_of(&[]), "");
}

#[test]
fn replace_of_absent_pattern_keeps_text() {
    for s in ["", "deploy", "a/b/c.css", "import {Alert}"] {
        assert_eq!(replace(s, "../", "x"), s);
    }
}
