use comicshelf::records::dbHold;
use comicshelf::tree::{create_graph, empty_holder, rows_fit_check, FrontendNode};

fn row(name: &str, path: &str, cover: Option<&str>, dir: i32) -> dbHold {
    dbHold {
        name: name.to_string(),
        filepath: path.to_string(),
        cover_path: cover.map(|c| c.to_string()),
        dirornot: dir,
    }
}

fn library_rows() -> Vec<dbHold> {
    vec![
        row("X-Men", "I:\\Comics\\NewMarvel\\X-Men", None, 1),
        row("issue1.cbz", "I:\\Comics\\NewMarvel\\X-Men\\issue1.cbz", Some("c1.webp"), 0),
        row("Avengers", "I:\\Comics\\NewMarvel\\Avengers", None, 1),
        row("Annuals", "I:\\Comics\\NewMarvel\\X-Men\\Annuals", None, 1),
        row("annual1.cbr", "I:\\Comics\\NewMarvel\\X-Men\\Annuals\\annual1.cbr", Some("c2.webp"), 0),
        row("stray.cbz", "I:\\Elsewhere\\stray.cbz", None, 0),
        row("Orphan", "I:\\Elsewhere\\Orphan", None, 1),
    ]
}

#[test]
fn root_node_is_library_root() {
    let h = create_graph(library_rows());
    let root = FrontendNode::from_graph(&h, "I:\\Comics\\NewMarvel").expect("root present");
    assert_eq!(root.id, "I:\\Comics\\NewMarvel");
    assert_eq!(root.level, 2);
    assert_eq!(root.contents[0].name, "Comics");
    assert_eq!(root.contents[0].filepath, "I:\\Comics\\NewMarvel");
    assert_eq!(root.contents[0].dirornot, 1);
    assert_eq!(root.contents.len(), 1);
}

#[test]
fn children_listed_most_recent_first() {
    let h = create_graph(library_rows());
    let root = FrontendNode::from_graph(&h, "I:\\Comics\\NewMarvel").unwrap();
    assert_eq!(
        root.children,
        vec![
            "I:\\Comics\\NewMarvel\\Avengers".to_string(),
            "I:\\Comics\\NewMarvel\\X-Men".to_string()
        ]
    );
}

#[test]
fn folder_holds_its_files_and_depth() {
    let h = create_graph(library_rows());
    let xmen = FrontendNode::from_graph(&h, "I:\\Comics\\NewMarvel\\X-Men").unwrap();
    assert_eq!(xmen.level, 2);
    assert_eq!(xmen.contents.len(), 2);
    assert_eq!(xmen.contents[0].name, "X-Men");
    assert_eq!(xmen.contents[1].name, "issue1.cbz");
    assert_eq!(xmen.contents[1].cover_path.as_deref(), Some("c1.webp"));
    assert_eq!(xmen.children, vec!["I:\\Comics\\NewMarvel\\X-Men\\Annuals".to_string()]);
    let annuals = FrontendNode::from_graph(&h, "I:\\Comics\\NewMarvel\\X-Men\\Annuals").unwrap();
    assert_eq!(annuals.level, 3);
    assert_eq!(annuals.contents.len(), 2);
    assert_eq!(annuals.contents[1].filepath, "I:\\Comics\\NewMarvel\\X-Men\\Annuals\\annual1.cbr");
    assert!(annuals.children.is_empty());
}

#[test]
fn rows_outside_the_library_are_dropped() {
    let h = create_graph(library_rows());
    assert!(FrontendNode::from_graph(&h, "I:\\Elsewhere\\Orphan").is_none());
    assert!(FrontendNode::from_graph(&h, "I:\\Elsewhere").is_none());
    assert!(FrontendNode::from_graph(&h, "I:\\Comics\\NewMarvel\\Missing").is_none());
}

#[test]
fn first_file_row_names_the_root() {
    let rows = vec![
        row("a.cbz", "D:\\Books\\Shelf\\a.cbz", Some("cov"), 0),
        row("Sub", "D:\\Books\\Shelf\\Sub", None, 1),
    ];
    let h = create_graph(rows);
    let root = FrontendNode::from_graph(&h, "D:\\Books\\Shelf").unwrap();
    assert_eq!(root.contents.len(), 2);
    assert_eq!(root.contents[0].name, "Books");
    assert_eq!(root.contents[0].dirornot, 0);
    assert_eq!(root.contents[0].cover_path.as_deref(), Some("cov"));
    assert_eq!(root.contents[1].filepath, "D:\\Books\\Shelf\\a.cbz");
    assert_eq!(root.children, vec!["D:\\Books\\Shelf\\Sub".to_string()]);
    let sub = FrontendNode::from_graph(&h, "D:\\Books\\Shelf\\Sub").unwrap();
    assert_eq!(sub.level, 2);
}

#[test]
fn two_component_first_row_is_its_own_root() {
    let rows = vec![row("Top", "C:\\Lib\\Top", None, 1)];
    let h = create_graph(rows);
    let root = FrontendNode::from_graph(&h, "C:\\Lib\\Top").unwrap();
    assert_eq!(root.contents[0].name, "Lib");
    assert_eq!(root.level, 2);
    assert!(root.children.is_empty());
}

#[test]
fn repeated_folder_path_points_to_latest_node() {
    let rows = vec![
        row("A", "E:\\L\\R\\A", None, 1),
        row("A", "E:\\L\\R\\A", None, 1),
        row("f.cbz", "E:\\L\\R\\A\\f.cbz", None, 0),
    ];
    let h = create_graph(rows);
    let root = FrontendNode::from_graph(&h, "E:\\L\\R").unwrap();
    // The older node is no longer indexed, so only one child path is listed.
    assert_eq!(root.children, vec!["E:\\L\\R\\A".to_string()]);
    let a = FrontendNode::from_graph(&h, "E:\\L\\R\\A").unwrap();
    assert_eq!(a.contents.len(), 2);
}

#[test]
fn rows_fit_check_rejects_bad_rows() {
    assert!(rows_fit_check(&library_rows()));
    assert!(!rows_fit_check(&Vec::new()));
    assert!(!rows_fit_check(&vec![row("x", "C:\\only", None, 1)]));
    assert!(!rows_fit_check(&vec![
        row("x", "C:\\a\\b", None, 1),
        row("y", "noseparator", None, 0)
    ]));
}

#[test]
fn empty_frontend_node() {
    let n = FrontendNode::new();
    assert_eq!(n.id, "");
    assert!(n.contents.is_empty());
    assert_eq!(n.level, 0);
    assert!(n.children.is_empty());
}

#[test]
fn empty_tree_has_no_folders() {
    let h = empty_holder();
    assert!(FrontendNode::from_graph(&h, "I:\\Comics\\NewMarvel").is_none());
    assert!(FrontendNode::from_graph(&h, "").is_none());
}
