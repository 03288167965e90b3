use vcxbuild::sample_builder::{expand_home, find_files, pattern_body};
use vcxbuild::vcpkg::{add_inc_paths, add_lib_paths, inc_path_candidates, lib_path_candidates};

#[test]
fn glob_exclusion_arithmetic() {
    // `-src/skip.cpp` removes its match even though the first pattern
    // matched it too.
    let ptns = vec!["src/*.cpp".to_string(), "-src/skip.cpp".to_string()];
    let matches = vec![
        vec!["src/a.cpp".to_string(), "src/skip.cpp".to_string()],
        vec!["src/skip.cpp".to_string()],
    ];
    assert_eq!(find_files(&ptns, &matches), vec!["src/a.cpp".to_string()]);
}

#[test]
fn find_files_deduplicates() {
    let ptns = vec!["a/*".to_string(), "*/x".to_string()];
    let matches = vec![
        vec!["a/x".to_string(), "a/y".to_string()],
        vec!["a/x".to_string(), "b/x".to_string()],
    ];
    assert_eq!(
        find_files(&ptns, &matches),
        vec!["a/x".to_string(), "a/y".to_string(), "b/x".to_string()],
    );
}

#[test]
fn find_files_exclude_then_reinclude() {
    let ptns = vec!["*".to_string(), "-f".to_string(), "f".to_string()];
    let matches = vec![vec!["f".to_string()], vec!["f".to_string()], vec!["f".to_string()]];
    assert_eq!(find_files(&ptns, &matches), vec!["f".to_string()]);
}

#[test]
fn pattern_body_strips_marker() {
    assert_eq!(pattern_body("-src/skip.cpp"), "src/skip.cpp");
    assert_eq!(pattern_body("src/*.cpp"), "src/*.cpp");
    assert_eq!(pattern_body(""), "");
}

#[test]
fn expand_home_replaces_leading_tilde() {
    let home = Some("/home/u".to_string());
    assert_eq!(expand_home("~/inc", &home), "/home/u/inc");
    assert_eq!(expand_home("plain", &home), "plain");
    assert_eq!(expand_home("~/inc", &None), "~/inc");
}

#[test]
fn vcpkg_candidate_paths() {
    assert_eq!(
        lib_path_candidates("root", true),
        vec![
            "root/installed/x64-windows-static/debug/lib".to_string(),
            "root/installed/x64-windows/debug/lib".to_string(),
        ],
    );
    assert_eq!(
        lib_path_candidates("root", false),
        vec![
            "root/installed/x64-windows-static/lib".to_string(),
            "root/installed/x64-windows/lib".to_string(),
        ],
    );
    assert_eq!(
        inc_path_candidates("root"),
        vec![
            "root/installed/x64-windows-static/include".to_string(),
            "root/installed/x64-windows/include".to_string(),
        ],
    );
}

#[test]
fn vcpkg_adds_only_existing_paths() {
    let existing = vec!["root/installed/x64-windows/debug/lib".to_string()];
    let mut vs = vec!["pre".to_string()];
    add_lib_paths(true, &Some("root".to_string()), &existing, &mut vs);
    assert_eq!(
        vs,
        vec!["pre".to_string(), "root/installed/x64-windows/debug/lib".to_string()],
    );

    let mut vs: Vec<String> = vec![];
    add_lib_paths(true, &None, &existing, &mut vs);
    assert!(vs.is_empty());

    let existing = vec!["root/installed/x64-windows-static/include".to_string()];
    let mut vs: Vec<String> = vec![];
    add_inc_paths(&Some("root".to_string()), &existing, &mut vs);
    assert_eq!(vs, vec!["root/installed/x64-windows-static/include".to_string()]);
}
