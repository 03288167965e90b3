use vcxbuild::walker::XmlEv;
use vcxbuild::xmlio::parse_project;
use vcxbuild::{need_build, BuildEnv, Vcxproj};

fn env_plain(events: Option<Vec<XmlEv>>) -> BuildEnv {
    BuildEnv { is_windows: false, events, existing_dirs: vec![], vcpkg_base: None }
}

#[test]
fn it_works() {
    let mut vcx = Vcxproj::new("../cpp_py/ctp_server/vs.proj/ctp_server_cpp.vcxproj", true);
    vcx.load_config(&env_plain(None));
    println!("{:?}", vcx);
}

#[test]
fn new_sets_condition() {
    let vcx = Vcxproj::new("p.vcxproj", true);
    assert_eq!(vcx.condition, "Debug|x64");
    let vcx = Vcxproj::new("p.vcxproj", false);
    assert_eq!(vcx.condition, "Release|x64");
    assert_eq!(vcx.lib_proj, "p.vcxproj");
    assert!(vcx.sources.is_empty());
}

#[test]
fn rela_path_simple_join() {
    let vcx = Vcxproj::new("dir/sub/proj.vcxproj", true);
    assert_eq!(vcx.rela_path("x/y.cpp"), Some("dir/sub/x/y.cpp".to_string()));
}

#[test]
fn rela_path_collapses_dots() {
    let vcx = Vcxproj::new("proj.vcxproj", true);
    assert_eq!(vcx.rela_path("a/./b/../c"), Some("a/c".to_string()));
}

#[test]
fn rela_path_symlink_keeps_dotdot() {
    // `a/b` is a symbolic link: `../c` must not collapse to `a/c`.
    let mut vcx = Vcxproj::new("a/b/proj.ext", true);
    vcx.links = vec!["a/b".to_string()];
    assert_eq!(vcx.rela_path("../c"), Some("a/b/../c".to_string()));
}

#[test]
fn rela_path_real_dir_collapses() {
    // `a/b` is a real directory: `../c` collapses to `a/c`.
    let vcx = Vcxproj::new("a/b/proj.ext", true);
    assert_eq!(vcx.rela_path("../c"), Some("a/c".to_string()));
}

#[test]
fn rela_path_rejects_empty_and_absolute() {
    let vcx = Vcxproj::new("a/b/proj.ext", true);
    assert_eq!(vcx.rela_path(""), None);
    assert_eq!(vcx.rela_path("/usr/include"), None);
    assert_eq!(vcx.rela_path("\\server\\share"), None);
    assert_eq!(vcx.rela_path("C:\\code\\x.cpp"), None);
}

#[test]
fn rela_path_drive_relative_stays_relative() {
    let vcx = Vcxproj::new("proj.vcxproj", true);
    assert_eq!(vcx.rela_path("C:foo"), Some("C:foo".to_string()));
    assert_eq!(vcx.rela_path("C:/x"), None);
}

#[test]
fn rela_path_leading_dotdot_kept() {
    let vcx = Vcxproj::new("proj.vcxproj", true);
    assert_eq!(vcx.rela_path("../c"), Some("../c".to_string()));
    assert_eq!(vcx.rela_path("../../c"), Some("../../c".to_string()));
}

#[test]
fn rela_path_all_collapsed_is_none() {
    let vcx = Vcxproj::new("proj.vcxproj", true);
    assert_eq!(vcx.rela_path("a/.."), None);
    assert_eq!(vcx.rela_path("."), None);
}

#[test]
fn rela_path_idempotent_on_resolved() {
    let vcx = Vcxproj::new("proj.vcxproj", true);
    let once = vcx.rela_path("a/../b/./c").unwrap();
    assert_eq!(once, "b/c");
    assert_eq!(vcx.rela_path(&once), Some(once.clone()));

    let mut vcx = Vcxproj::new("proj.vcxproj", true);
    vcx.links = vec!["x".to_string()];
    let once = vcx.rela_path("x/../y").unwrap();
    assert_eq!(once, "x/../y");
    assert_eq!(vcx.rela_path(&once), Some(once.clone()));
}

#[test]
fn is_link_checks_joined_path() {
    let mut vcx = Vcxproj::new("proj.vcxproj", true);
    vcx.links = vec!["a/b".to_string()];
    assert!(vcx.is_link(&vec!["a".to_string(), "b".to_string()]));
    assert!(!vcx.is_link(&vec!["a".to_string()]));
}

#[test]
fn basename_strips_dir_and_extension() {
    assert_eq!(Vcxproj::new("dir/foo.vcxproj", true).basename(), "foo");
    assert_eq!(Vcxproj::new("foo", true).basename(), "foo");
    assert_eq!(Vcxproj::new("a\\b.tar.gz", true).basename(), "b.tar");
    assert_eq!(Vcxproj::new(".hidden", true).basename(), ".hidden");
    assert_eq!(Vcxproj::new("", true).basename(), "");
    assert_eq!(Vcxproj::new("a/..", true).basename(), "");
}

#[test]
fn find_lib_uses_platform_naming() {
    let mut vcx = Vcxproj::new("proj.vcxproj", true);
    vcx.lib_dirs = vec!["libs".to_string()];
    let files = vec!["libs/libfoo.a".to_string(), "libs/bar.lib".to_string()];
    assert!(vcx.find_lib("foo", false, &files));
    assert!(!vcx.find_lib("bar", false, &files));
    assert!(vcx.find_lib("bar", true, &files));
    assert!(!vcx.find_lib("foo", true, &files));
}

#[test]
fn need_build_decisions() {
    // absent target: rebuild
    assert!(need_build(None, &vec![Some(50)]));
    // target newer than every dependency: no rebuild
    assert!(!need_build(Some(100), &vec![Some(50), Some(90)]));
    // one dependency newer: rebuild
    assert!(need_build(Some(100), &vec![Some(50), Some(150)]));
    // a missing dependency alone does not force a rebuild
    assert!(!need_build(Some(100), &vec![None, Some(50)]));
    assert!(!need_build(Some(100), &vec![]));
}

#[test]
fn compile_rc_is_trivial_off_windows() {
    assert_eq!(vcxbuild::compile_rc("app.rc"), Some(()));
}

fn start(name: &str, attrs: &[(&str, &str)]) -> XmlEv {
    XmlEv::Start {
        name: name.to_string(),
        attrs: attrs.iter().map(|(k, v)| (k.to_string(), v.to_string())).collect(),
    }
}

#[test]
fn walk_collects_sources_and_gated_includes() {
    let mut vcx = Vcxproj::new("vs.proj/p.vcxproj", true);
    let events = vec![
        start("Project", &[]),
        start("ItemGroup", &[]),
        start("ClCompile", &[("Include", "../src/a.cpp")]),
        XmlEv::End,
        XmlEv::End,
        start("ItemDefinitionGroup", &[("Condition", "'$(Configuration)|$(Platform)'=='Debug|x64'")]),
        start("ClCompile", &[]),
        start("AdditionalIncludeDirectories", &[]),
        XmlEv::Text("incX;incX2".to_string()),
        XmlEv::End,
        XmlEv::End,
        XmlEv::End,
        start("ItemDefinitionGroup", &[("Condition", "'$(Configuration)|$(Platform)'=='Release|x64'")]),
        start("ClCompile", &[]),
        start("AdditionalIncludeDirectories", &[]),
        XmlEv::Text("incY".to_string()),
        XmlEv::End,
        XmlEv::End,
        XmlEv::End,
        XmlEv::End,
        XmlEv::Eof,
    ];
    let ok = vcx.load_vcxproj(&events);
    assert!(ok);
    assert_eq!(vcx.sources, vec!["src/a.cpp".to_string()]);
    assert_eq!(vcx.include_dirs, vec!["vs.proj/incX".to_string(), "vs.proj/incX2".to_string()]);
}

#[test]
fn walk_stops_at_failure_keeps_partial() {
    let mut vcx = Vcxproj::new("p.vcxproj", true);
    let events = vec![
        start("Project", &[]),
        start("ItemGroup", &[]),
        start("ClCompile", &[("Include", "a.cpp")]),
        XmlEv::End,
        XmlEv::Fail,
        start("ItemGroup", &[]),
        start("ClCompile", &[("Include", "b.cpp")]),
    ];
    let ok = vcx.load_vcxproj(&events);
    assert!(!ok);
    assert_eq!(vcx.sources, vec!["a.cpp".to_string()]);
}

#[test]
fn parse_project_drives_the_walk() {
    let doc = "<Project>\
<ItemGroup><ClCompile Include=\"src/a.cpp\"/><ClCompile Include=\"src/b.cpp\"/></ItemGroup>\
<ItemDefinitionGroup Condition=\"'$(Configuration)|$(Platform)'=='Debug|x64'\">\
<ClCompile><AdditionalIncludeDirectories>incX</AdditionalIncludeDirectories></ClCompile>\
</ItemDefinitionGroup>\
<ItemDefinitionGroup Condition=\"'$(Configuration)|$(Platform)'=='Release|x64'\">\
<ClCompile><AdditionalIncludeDirectories>incY</AdditionalIncludeDirectories></ClCompile>\
</ItemDefinitionGroup>\
</Project>";
    let events = parse_project(doc.as_bytes());
    let mut vcx = Vcxproj::new("proj.vcxproj", true);
    let ok = vcx.load_vcxproj(&events);
    assert!(ok);
    assert_eq!(vcx.sources, vec!["src/a.cpp".to_string(), "src/b.cpp".to_string()]);
    assert_eq!(vcx.include_dirs, vec!["incX".to_string()]);

    // the Release request picks the other group
    let events = parse_project(doc.as_bytes());
    let mut vcx = Vcxproj::new("proj.vcxproj", false);
    assert!(vcx.load_vcxproj(&events));
    assert_eq!(vcx.include_dirs, vec!["incY".to_string()]);
}

#[test]
fn load_vcxproj_doc_from_bytes() {
    let doc = "<Project><ItemGroup><ClCompile Include=\"a.cpp\"/></ItemGroup></Project>";
    let mut vcx = Vcxproj::new("proj.vcxproj", true);
    assert!(vcx.load_vcxproj_doc(doc.as_bytes()));
    assert_eq!(vcx.sources, vec!["a.cpp".to_string()]);
}

#[test]
fn parse_project_reports_malformed_documents() {
    let events = parse_project(b"<Project><ItemGroup>");
    let mut vcx = Vcxproj::new("proj.vcxproj", true);
    assert!(!vcx.load_vcxproj(&events));
}

#[test]
fn load_config_filters_and_derives() {
    let doc = "<Project><ItemGroup><ClCompile Include=\"a.cpp\"/></ItemGroup></Project>";
    let env = BuildEnv {
        is_windows: false,
        events: Some(parse_project(doc.as_bytes())),
        existing_dirs: vec!["keep".to_string()],
        vcpkg_base: None,
    };
    let mut vcx = Vcxproj::new("proj/p.vcxproj", true);
    vcx.include_dirs = vec!["keep".to_string(), "gone".to_string()];
    vcx.lib_dirs = vec!["gone".to_string()];
    let ok = vcx.load_config(&env);
    assert!(ok);
    assert_eq!(vcx.include_dirs, vec!["keep".to_string()]);
    assert_eq!(vcx.lib_dirs, Vec::<String>::new());
    assert_eq!(vcx.sources, vec!["proj/a.cpp".to_string()]);
    assert_eq!(vcx.target, "p");
    // off the artifact-naming platform no artifact path is fabricated
    assert_eq!(vcx.target_fn, "");
    assert_eq!(vcx.flags.first().unwrap(), "-Wno-unused-parameter");
    assert_eq!(vcx.flags.last().unwrap(), "-O0");
}

#[test]
fn load_config_windows_artifact_path() {
    let env = BuildEnv {
        is_windows: true,
        events: None,
        existing_dirs: vec![],
        vcpkg_base: None,
    };
    let mut vcx = Vcxproj::new("proj/p.vcxproj", true);
    let ok = vcx.load_config(&env);
    // the document could not be read: failure is reported, the rest is kept
    assert!(!ok);
    assert_eq!(vcx.target, "p");
    assert_eq!(vcx.target_fn, "proj/x64/Debug/p.lib");
    assert_eq!(vcx.lib_dirs, vec!["proj/x64/Debug".to_string()]);
    assert_eq!(vcx.flags.first().unwrap(), "/EHsc");
    assert_eq!(vcx.flags.last().unwrap(), "/Od");

    let mut vcx = Vcxproj::new("proj/p.vcxproj", false);
    vcx.load_config(&env);
    assert_eq!(vcx.target_fn, "proj/x64/Release/p.lib");
    assert_eq!(vcx.flags.last().unwrap(), "/O2");
}
