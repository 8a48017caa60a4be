use svg_sprites::walker::{walk, FsTree, SVGFile, WalkError};

fn file(name: &str, path: &str) -> FsTree {
    FsTree::File { name: name.to_string(), path: path.to_string() }
}

fn dir(name: &str, path: &str, entries: Vec<FsTree>) -> FsTree {
    FsTree::Dir { name: name.to_string(), path: path.to_string(), entries: Some(entries) }
}

#[test]
fn walk_collects_every_eligible_file() {
    let tree = dir(
        "icons",
        "icons",
        vec![
            file("arrow.svg", "icons/arrow.svg"),
            file("readme.txt", "icons/readme.txt"),
            dir(
                "ui",
                "icons/ui",
                vec![file("close.svg", "icons/ui/close.svg"), file("open.svg", "icons/ui/open.svg")],
            ),
            file("box.svg", "icons/box.svg"),
        ],
    );
    let mut svgs: Vec<SVGFile> = Vec::new();
    let r = walk(&tree, &mut svgs, &Vec::new(), true);
    assert!(r.is_ok());
    assert_eq!(svgs.len(), 4);
    // files of the root come first, in listing order, then the subdirectory
    assert_eq!(svgs[0].tree_names, vec!["arrow".to_string()]);
    assert_eq!(svgs[0].system_path, "icons/arrow.svg".to_string());
    assert_eq!(svgs[1].tree_names, vec!["box".to_string()]);
    assert_eq!(svgs[2].tree_names, vec!["ui".to_string(), "close".to_string()]);
    assert_eq!(svgs[3].tree_names, vec!["ui".to_string(), "open".to_string()]);
    for s in &svgs {
        assert!(!s.tree_names.is_empty());
    }
}

#[test]
fn nested_file_yields_joined_segments() {
    let tree = dir(
        "icons",
        "icons",
        vec![dir("ui", "icons/ui", vec![file("close.svg", "icons/ui/close.svg")])],
    );
    let mut svgs: Vec<SVGFile> = Vec::new();
    walk(&tree, &mut svgs, &Vec::new(), true).unwrap();
    assert_eq!(svgs.len(), 1);
    let id = svg_sprites::ident::join_segments(&svgs[0].tree_names, "-");
    assert_eq!(id, "ui-close".to_string());
}

#[test]
fn non_recursive_walk_excludes_subdirectories() {
    let tree = dir(
        "icons",
        "icons",
        vec![dir("ui", "icons/ui", vec![file("close.svg", "icons/ui/close.svg")])],
    );
    let mut svgs: Vec<SVGFile> = Vec::new();
    walk(&tree, &mut svgs, &Vec::new(), false).unwrap();
    assert_eq!(svgs.len(), 0);
}

#[test]
fn walk_on_a_file_is_a_fatal_error() {
    let tree = file("icons", "icons");
    let mut svgs: Vec<SVGFile> = Vec::new();
    let r = walk(&tree, &mut svgs, &Vec::new(), true);
    match r {
        Err(WalkError::NotADirectory { path }) => assert_eq!(path, "icons".to_string()),
        _ => panic!("expected the not-a-directory error"),
    }
    assert_eq!(svgs.len(), 0);
}

#[test]
fn unreadable_directory_aborts_the_walk() {
    let tree = dir(
        "icons",
        "icons",
        vec![
            file("arrow.svg", "icons/arrow.svg"),
            FsTree::Dir { name: "ui".to_string(), path: "icons/ui".to_string(), entries: None },
        ],
    );
    let mut svgs: Vec<SVGFile> = Vec::new();
    let r = walk(&tree, &mut svgs, &Vec::new(), true);
    match r {
        Err(WalkError::Traversal { path }) => assert_eq!(path, "icons/ui".to_string()),
        _ => panic!("expected the traversal error"),
    }
}

#[test]
fn unreadable_directory_is_skipped_without_recursion() {
    let tree = dir(
        "icons",
        "icons",
        vec![FsTree::Dir { name: "ui".to_string(), path: "icons/ui".to_string(), entries: None }],
    );
    let mut svgs: Vec<SVGFile> = Vec::new();
    assert!(walk(&tree, &mut svgs, &Vec::new(), false).is_ok());
    assert_eq!(svgs.len(), 0);
}

#[test]
fn eligibility_is_exact_and_case_sensitive() {
    let tree = dir(
        "icons",
        "icons",
        vec![
            file(".svg", "icons/.svg"),
            file("a.svg", "icons/a.svg"),
            file("b.SVG", "icons/b.SVG"),
            file("c.txt", "icons/c.txt"),
            file("x.y.svg", "icons/x.y.svg"),
            file("svg", "icons/svg"),
        ],
    );
    let mut svgs: Vec<SVGFile> = Vec::new();
    walk(&tree, &mut svgs, &Vec::new(), true).unwrap();
    assert_eq!(svgs.len(), 2);
    assert_eq!(svgs[0].tree_names, vec!["a".to_string()]);
    assert_eq!(svgs[1].tree_names, vec!["x.y".to_string()]);
}

#[test]
fn walk_error_messages_name_the_path() {
    let e = WalkError::NotADirectory { path: "here".to_string() };
    assert_eq!(e.message(), "path must be directory: here".to_string());
    let t = WalkError::Traversal { path: "there".to_string() };
    assert_eq!(t.message(), "could not read directory: there".to_string());
}

#[test]
fn svg_file_starts_without_segments() {
    let f = SVGFile::from("icons/a.svg");
    assert!(f.tree_names.is_empty());
    assert_eq!(f.system_path, "icons/a.svg".to_string());
    assert_eq!(f.print(), "nice".to_string());
}

#[test]
fn empty_directory_yields_no_entries() {
    let tree = dir("icons", "icons", vec![]);
    let mut svgs: Vec<SVGFile> = Vec::new();
    assert!(walk(&tree, &mut svgs, &Vec::new(), true).is_ok());
    assert_eq!(svgs.len(), 0);
}
