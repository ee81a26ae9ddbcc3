use provenex_ingest::files::{is_otlp_file, select_otlp_files, Watcher};
use provenex_ingest::order::sort_by_key;
use provenex_ingest::paths::{
    derive_report_path, extension_of, file_name_of, join_path, parent_of, report_name_for,
    report_path_in, report_path_where, source_stem_of, stem_of,
};
use std::path::{Path, PathBuf};

fn names(list: &[&str]) -> Vec<String> {
    list.iter().map(|s| s.to_string()).collect()
}

const PATHS: [&str; 44] = [
    "", "/", "//", ".", "./", "..", "../", "/.", "/..", "./.", "a", "a/", "a//", "/a", "//a",
    "./a", ".//a", "../a", "a/b", "a//b", "a/./b", "a/.", "a/./", "a/..", "a/../", "/a/b/",
    "verdict.html", "dir/verdict.html", "dir/verdict", "dir/.html", "dir/.a.html", "dir/a.b.c",
    "dir/a.", "dir/..a", "dir/...", "dir/a..", "x/y/z.tar.gz//", "é/ü.ö", "a/.b", "a/b/.",
    ".a/..", "./..", "/./a", "././a",
];

#[test]
fn paths_are_taken_apart_as_the_standard_library_does() {
    for path in PATHS {
        let p = Path::new(path);
        assert_eq!(
            parent_of(false, path).as_deref(),
            p.parent().map(|x| x.to_str().unwrap()),
            "parent of {path}"
        );
        assert_eq!(
            file_name_of(false, path).as_deref(),
            p.file_name().map(|x| x.to_str().unwrap()),
            "file name of {path}"
        );
        if let Some(name) = file_name_of(false, path) {
            assert_eq!(
                Some(stem_of(&name).as_str()),
                p.file_stem().map(|x| x.to_str().unwrap()),
                "stem of {path}"
            );
            assert_eq!(
                extension_of(&name).as_deref(),
                p.extension().map(|x| x.to_str().unwrap()),
                "extension of {path}"
            );
        }
        for name in ["n", "n/m", "/n", ""] {
            assert_eq!(
                join_path(false, '/', path, name),
                p.join(name).to_str().unwrap(),
                "{path} joined with {name}"
            );
        }
    }
}

fn beside(report: &str, stem: &str) -> PathBuf {
    let p = Path::new(report);
    let dir = p.parent().unwrap_or(Path::new("."));
    let ext = p.extension().map_or("html", |s| s.to_str().unwrap());
    let base = p.file_stem().map_or("verdict", |s| s.to_str().unwrap());
    dir.join(format!("{base}-{stem}.{ext}"))
}

#[test]
fn reports_go_beside_the_path_given() {
    assert_eq!(derive_report_path("out/verdict.html", None), "out/verdict.html");
    assert_eq!(derive_report_path("a//b/", None), "a//b/");
    assert_eq!(
        derive_report_path("dir/verdict.html", Some("echoleak")),
        "dir/verdict-echoleak.html"
    );
    assert_eq!(
        derive_report_path("dir/verdict.html", Some("curxecute")),
        "dir/verdict-curxecute.html"
    );
    assert_eq!(derive_report_path("verdict", Some("x")), "verdict-x.html");
    assert_eq!(derive_report_path("/", Some("x")), "./verdict-x.html");
    assert_eq!(derive_report_path("..", Some("x")), "verdict-x.html");
    assert_eq!(derive_report_path("/r.pdf", Some("x")), "/r-x.pdf");
    for path in PATHS {
        for stem in ["s", "", "a.b", "é"] {
            assert_eq!(
                derive_report_path(path, Some(stem)),
                beside(path, stem).to_str().unwrap(),
                "{path} for {stem}"
            );
        }
    }
}

#[test]
fn reports_go_where_this_machine_puts_them() {
    for path in [
        r"a.b\verdict",
        r"a\b.c",
        r"C:x\y.html",
        r"C:\d.e\verdict",
        "//s/t/u.html",
        "a:b",
        "run-10:30/verdict.html",
    ] {
        assert_eq!(
            Path::new(&derive_report_path(path, Some("x"))),
            beside(path, "x"),
            "{path}"
        );
        assert_eq!(derive_report_path(path, None), path);
    }
    assert_eq!(
        derive_report_path("run-10:30/verdict.html", Some("x")),
        "run-10:30/verdict-x.html"
    );
}

#[test]
fn reports_go_beside_the_path_where_a_backslash_separates() {
    for (path, want) in [
        (r"a.b\verdict", r"a.b\verdict-x.html"),
        (r"a\b/c.pdf", r"a\b\c-x.pdf"),
        (r"C:\d.e\verdict", r"C:\d.e\verdict-x.html"),
        (r"C:\verdict.html", r"C:\verdict-x.html"),
        ("C:verdict.html", "C:verdict-x.html"),
        ("c:/r/v.html", "c:/r/v-x.html"),
        (r"C:\", r".\verdict-x.html"),
        ("C:", "./verdict-x.html"),
        (r".\v.html", r".\v-x.html"),
        (r"..\v.html", r"..\v-x.html"),
        (r"\v.html", r"\v-x.html"),
        ("d/a:b.html", "a:b-x.html"),
        ("1:v.html", "1:v-x.html"),
        (r"a\", r"a-x.html"),
        (r"a\.\b\\c.html", r"a\.\b\c-x.html"),
    ] {
        assert_eq!(report_path_where(true, path, "x"), want, "{path}");
    }
    for path in PATHS {
        if !path.starts_with("//") {
            assert_eq!(
                report_path_where(true, path, "x"),
                report_path_where(false, path, "x"),
                "{path}"
            );
        }
    }
    // Paths to a server are taken apart by the standard library.
    assert_eq!(
        Path::new(&report_path_where(true, "//s/t/u.html", "x")),
        beside("//s/t/u.html", "x")
    );
    assert_eq!(report_path_where(false, r"a.b\verdict", "x"), r"a-x.b\verdict");
    assert_eq!(parent_of(true, r"C:\a\b").as_deref(), Some(r"C:\a"));
    assert_eq!(parent_of(true, "C:.").as_deref(), Some("C:"));
    assert_eq!(parent_of(true, r"C:\"), None);
    assert_eq!(file_name_of(true, r"C:\a\b.c").as_deref(), Some("b.c"));
    assert_eq!(join_path(true, '\\', r"C:\a", r"\b"), r"C:\b");
    assert_eq!(join_path(true, '\\', "C:", "b"), "C:b");
}

#[test]
fn reports_are_named_after_the_path_and_the_capture() {
    let some = |s: &str| Some(s.to_string());
    assert_eq!(report_name_for(some("r.tar.gz"), "x"), "r.tar-x.gz");
    assert_eq!(report_name_for(some(".r"), "x"), ".r-x.html");
    assert_eq!(report_name_for(None, "x"), "verdict-x.html");
    assert_eq!(
        report_path_in(true, '\\', some(r"\\s\t"), some("v.html"), "x"),
        r"\\s\t\v-x.html"
    );
    assert_eq!(report_path_in(false, '/', None, None, "x"), "./verdict-x.html");
}

#[test]
fn reports_stay_in_the_directory_of_the_report_path() {
    for path in PATHS {
        let dir = parent_of(false, path).unwrap_or(".".to_string());
        let report = report_path_where(false, path, "x");
        assert_eq!(parent_of(false, &report), Some(dir), "{path}");
    }
}

#[test]
fn report_names_hold_the_capture_without_its_ending() {
    assert_eq!(source_stem_of("01_echoleak.otlp.json"), "01_echoleak");
    assert_eq!(source_stem_of("x.otlp.proto.json"), "x.otlp.proto");
    assert_eq!(source_stem_of("x.otlp.proto.otlp.json"), "x.otlp.proto.otlp");
    assert_eq!(
        source_stem_of("x.otlp.proto.otlp.otlp.json"),
        "x.otlp.proto.otlp.otlp"
    );
    assert_eq!(source_stem_of("x.otlp.otlp.json"), "x.otlp");
    assert_eq!(source_stem_of("x.proto.otlp.json"), "x.proto");
    assert_eq!(source_stem_of(".otlp.json"), "");
    assert_eq!(source_stem_of("trace.json"), "trace");
    assert_eq!(
        derive_report_path("verdict.html", Some(&source_stem_of("01_echoleak.otlp.json"))),
        "verdict-01_echoleak.html"
    );
}

#[test]
fn reports_on_different_captures_are_kept_apart() {
    let captures = [
        "a.otlp.json",
        "a.otlp.otlp.json",
        "a.otlp.proto.json",
        "a.otlp.proto.otlp.json",
        "a.otlp.proto.otlp.otlp.json",
        "a.otlp.proto.otlp.proto.json",
        "a.b.otlp.json",
        "b.otlp.json",
    ];
    for report in ["verdict.html", "r/", "..", "x/y.z", r"C:\x\y.z", "run-10:30/v"] {
        for (i, a) in captures.iter().enumerate() {
            for b in &captures[i + 1..] {
                for backslash in [false, true] {
                    assert_ne!(
                        report_path_where(backslash, report, &source_stem_of(a)),
                        report_path_where(backslash, report, &source_stem_of(b))
                    );
                }
            }
        }
    }
}

#[test]
fn captures_are_known_by_their_ending() {
    for name in ["a.otlp.json", ".otlp.json", "a.otlp.proto.json", "é.otlp.json"] {
        assert!(is_otlp_file(name), "{name}");
    }
    for name in ["", "a.json", "otlp.json", "a.otlp.json.gz", "a.OTLP.json", "a.proto.json"] {
        assert!(!is_otlp_file(name), "{name}");
    }
}

#[test]
fn captures_are_selected_in_dictionary_order() {
    let picked = select_otlp_files(names(&[
        "b.otlp.json",
        "notes.txt",
        "a.otlp.proto.json",
        "B.otlp.json",
        "a.otlp.json",
        "é.otlp.json",
        "a-1.otlp.json",
    ]));
    let mut want = names(&[
        "b.otlp.json",
        "a.otlp.proto.json",
        "B.otlp.json",
        "a.otlp.json",
        "é.otlp.json",
        "a-1.otlp.json",
    ]);
    want.sort();
    assert_eq!(picked, want);
    assert!(select_otlp_files(names(&["x", "y"])).is_empty());
    assert!(select_otlp_files(Vec::new()).is_empty());
}

#[test]
fn sorting_by_key_is_stable() {
    let list = vec![
        ("b".to_string(), 1),
        ("a".to_string(), 2),
        ("b".to_string(), 0),
        ("".to_string(), 3),
    ];
    assert_eq!(
        sort_by_key(list),
        vec![
            ("".to_string(), 3),
            ("a".to_string(), 2),
            ("b".to_string(), 1),
            ("b".to_string(), 0),
        ]
    );
}

#[test]
fn a_watcher_hands_every_file_out_once() {
    let mut watcher = Watcher::new();
    assert_eq!(watcher.fresh(names(&["a", "b"])), names(&["a", "b"]));
    assert_eq!(watcher.fresh(names(&["a", "b"])), names(&[]));
    assert_eq!(watcher.fresh(names(&["a", "c", "b", "d"])), names(&["c", "d"]));
    assert_eq!(watcher.fresh(names(&[])), names(&[]));
    assert_eq!(watcher.fresh(names(&["d", "e"])), names(&["e"]));
    assert_eq!(watcher.fresh(names(&["a"])), names(&[]));
}
