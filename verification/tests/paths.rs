use tarpaulin::config::{CiService, Config};
use tarpaulin::paths::{stem, Component, FilePath};

fn path(s: &str) -> FilePath {
    let mut components = Vec::new();
    if s.starts_with('/') {
        components.push(Component::RootDir);
    }
    for part in s.split('/').filter(|p| !p.is_empty()) {
        components.push(match part {
            "." => Component::CurDir,
            ".." => Component::ParentDir,
            n => Component::Normal(n.to_string()),
        });
    }
    FilePath { components }
}

fn config(manifest: &str) -> Config {
    Config {
        manifest: path(manifest),
        verbose: false,
        coveralls: None,
        ci_tool: None::<CiService>,
        report_uri: None,
    }
}

#[test]
fn display_joins_components() {
    assert_eq!(path("/home/user/project/src/lib.rs").display(), "/home/user/project/src/lib.rs");
    assert_eq!(path("src/lib.rs").display(), "src/lib.rs");
    assert_eq!(path("/").display(), "/");
    assert_eq!(FilePath::empty().display(), "");
    assert_eq!(path("./a/../b").display(), "./a/../b");
}

#[test]
fn parent_drops_last_component() {
    assert_eq!(path("/a/b/c.rs").parent().unwrap().display(), "/a/b");
    assert_eq!(path("/a").parent().unwrap().display(), "/");
    assert!(path("/").parent().is_none());
    assert!(FilePath::empty().parent().is_none());
    // A single relative name has the empty path as its parent.
    assert_eq!(path("Cargo.toml").parent().unwrap().display(), "");
}

#[test]
fn starts_with_compares_whole_components() {
    assert!(path("/a/bc/d").starts_with(&path("/a/bc")));
    assert!(!path("/a/bcd").starts_with(&path("/a/bc")));
    assert!(path("/a").starts_with(&FilePath::empty()));
    assert!(!path("a/b").starts_with(&path("/a")));
    assert!(path("/a/b").starts_with(&path("/a/b")));
}

#[test]
fn strip_prefix_gives_remainder() {
    assert_eq!(path("/p/src/main.rs").strip_prefix(&path("/p")).unwrap().display(), "src/main.rs");
    assert_eq!(path("/p").strip_prefix(&path("/p")).unwrap().display(), "");
    assert!(path("/q/src").strip_prefix(&path("/p")).is_none());
}

#[test]
fn file_stem_rules() {
    assert_eq!(path("/a/lib.rs").file_stem().unwrap(), "lib");
    assert_eq!(path("/a/archive.tar.gz").file_stem().unwrap(), "archive.tar");
    assert_eq!(path("/a/.bashrc").file_stem().unwrap(), ".bashrc");
    assert_eq!(path("/a/noext").file_stem().unwrap(), "noext");
    assert_eq!(path("/a/trailing.").file_stem().unwrap(), "trailing");
    assert!(path("/a/..").file_stem().is_none());
    assert!(path("/").file_stem().is_none());
    assert_eq!(stem(&"..".to_string()), "..");
    assert_eq!(stem(&"a..b".to_string()), "a.");
}

#[test]
fn file_name_of_last_component() {
    assert_eq!(path("/a/b.rs").file_name().unwrap(), "b.rs");
    assert!(path(".").file_name().is_none());
    assert!(path("a/..").file_name().is_none());
}

#[test]
fn same_path_and_duplicate() {
    let p = path("/x/y/z.rs");
    assert!(p.same_path(&p.duplicate()));
    assert!(!p.same_path(&path("/x/y/z.r")));
    assert!(!p.same_path(&path("x/y/z.rs")));
}

#[test]
fn strip_project_path_uses_manifest_directory() {
    let c = config("/home/me/proj/Cargo.toml");
    assert_eq!(c.root().display(), "/home/me/proj");
    assert_eq!(c.strip_project_path(&path("/home/me/proj/src/lib.rs")).display(), "src/lib.rs");
    assert_eq!(c.strip_project_path(&path("/elsewhere/lib.rs")).display(), "/elsewhere/lib.rs");
    // A manifest without a parent is its own root.
    let c = config("/");
    assert_eq!(c.root().display(), "/");
}
