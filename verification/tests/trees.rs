use dtree::entry::Kind;
use dtree::report::Output;
use dtree::root::{render_root, run, Report, Root};
use dtree::tree::{display_tree, Child, Listing, Node};

fn line(text: &str) -> Output {
    Output::Line(text.to_string())
}

fn error(text: &str) -> Output {
    Output::Error(text.to_string())
}

fn file(name: &str) -> Child {
    Child {
        name: name.to_string(),
        node: Node::File,
    }
}

fn other(name: &str) -> Child {
    Child {
        name: name.to_string(),
        node: Node::Other,
    }
}

fn dir(name: &str, children: Vec<Child>) -> Child {
    Child {
        name: name.to_string(),
        node: Node::Directory(Listing::Entries(children)),
    }
}

fn unreadable(name: &str, path: &str, message: &str) -> Child {
    Child {
        name: name.to_string(),
        node: Node::Directory(Listing::Failed {
            path: path.to_string(),
            message: message.to_string(),
        }),
    }
}

fn lines(texts: &[&str]) -> Vec<Output> {
    texts.iter().map(|text| line(text)).collect()
}

#[test]
fn end_to_end_with_files() {
    let root = Listing::Entries(vec![file("a.txt"), dir("sub", vec![])]);
    assert_eq!(
        render_root("root", &root, true),
        lines(&["root", "├── sub", "└── a.txt"])
    );
}

#[test]
fn end_to_end_without_files() {
    let root = Listing::Entries(vec![file("a.txt"), dir("sub", vec![])]);
    assert_eq!(
        render_root("root", &root, false),
        lines(&["root", "└── sub"])
    );
}

#[test]
fn a_run_on_a_directory_succeeds() {
    let root = Root::Directory(Listing::Entries(vec![file("a.txt"), dir("sub", vec![])]));
    assert_eq!(
        run("root", &root, true),
        Report {
            outputs: lines(&["root", "├── sub", "└── a.txt"]),
            exit_code: 0,
        }
    );
}

#[test]
fn a_run_on_a_missing_path_fails_with_one_diagnostic() {
    let report = run("/no/such/place", &Root::Missing, true);
    assert_eq!(
        report,
        Report {
            outputs: vec![error("Error: Path '/no/such/place' does not exist")],
            exit_code: 1,
        }
    );
}

#[test]
fn a_run_on_a_file_fails_with_its_own_diagnostic() {
    let report = run("notes.txt", &Root::NotDirectory, false);
    assert_eq!(
        report,
        Report {
            outputs: vec![error("Error: Path 'notes.txt' is not a directory")],
            exit_code: 1,
        }
    );
}

#[test]
fn an_empty_root_shows_its_path_only() {
    let empty = Listing::Entries(Vec::new());
    assert_eq!(render_root(".", &empty, true), lines(&["."]));
    assert_eq!(render_root(".", &empty, false), lines(&["."]));
}

#[test]
fn a_directory_of_files_only_is_empty_without_files() {
    let listing = Listing::Entries(vec![file("a"), file("b"), other("c")]);
    assert_eq!(display_tree(&listing, "", false), Vec::<Output>::new());
    assert_eq!(render_root("d", &listing, false), lines(&["d"]));
}

#[test]
fn the_root_line_is_the_path_as_given() {
    let empty = Listing::Entries(Vec::new());
    assert_eq!(render_root("./a/../b/", &empty, false), lines(&["./a/../b/"]));
    assert_eq!(render_root("", &empty, false), lines(&[""]));
}

fn three_levels() -> Listing {
    Listing::Entries(vec![
        file("readme.md"),
        dir(
            "src",
            vec![
                file("main.rs"),
                dir("util", vec![file("io.rs"), dir("deep", vec![file("leaf")])]),
                dir("bin", vec![]),
            ],
        ),
        dir(
            "tests",
            vec![dir("data", vec![dir("inner", vec![file("x")])]), file("t.rs")],
        ),
        other("socket"),
    ])
}

#[test]
fn prefixes_propagate_through_three_levels() {
    assert_eq!(
        display_tree(&three_levels(), "", true),
        lines(&[
            "├── src",
            "│   ├── bin",
            "│   ├── util",
            "│   │   ├── deep",
            "│   │   │   └── leaf",
            "│   │   └── io.rs",
            "│   └── main.rs",
            "├── tests",
            "│   ├── data",
            "│   │   └── inner",
            "│   │       └── x",
            "│   └── t.rs",
            "└── readme.md",
        ])
    );
}

#[test]
fn directories_only_through_three_levels() {
    assert_eq!(
        display_tree(&three_levels(), "", false),
        lines(&[
            "├── src",
            "│   ├── bin",
            "│   └── util",
            "│       └── deep",
            "└── tests",
            "    └── data",
            "        └── inner",
        ])
    );
}

#[test]
fn a_given_prefix_leads_every_line() {
    let listing = Listing::Entries(vec![dir("a", vec![dir("b", vec![])]), dir("c", vec![])]);
    assert_eq!(
        display_tree(&listing, "## ", false),
        lines(&["## ├── a", "## │   └── b", "## └── c"])
    );
}

#[test]
fn every_kept_child_has_a_line() {
    let names = ["one", "two", "three", "four", "five"];
    let children: Vec<Child> = names
        .iter()
        .enumerate()
        .map(|(i, name)| if i % 2 == 0 { dir(name, vec![]) } else { file(name) })
        .collect();
    let listing = Listing::Entries(children);

    let with_files = display_tree(&listing, "", true);
    assert_eq!(with_files.len(), 5);
    for name in names {
        assert_eq!(
            with_files
                .iter()
                .filter(|o| matches!(o, Output::Line(text) if text.ends_with(name)))
                .count(),
            1
        );
    }

    let without_files = display_tree(&listing, "", false);
    assert_eq!(without_files, lines(&["├── five", "├── one", "└── three"]));
}

#[test]
fn the_order_of_the_listing_does_not_show() {
    let forward = Listing::Entries(vec![
        file("b.txt"),
        dir("x", vec![file("inner")]),
        file("a.txt"),
        dir("m", vec![]),
    ]);
    let backward = Listing::Entries(vec![
        dir("m", vec![]),
        file("a.txt"),
        dir("x", vec![file("inner")]),
        file("b.txt"),
    ]);
    let expected = lines(&[
        "├── m",
        "├── x",
        "│   └── inner",
        "├── a.txt",
        "└── b.txt",
    ]);
    assert_eq!(display_tree(&forward, "", true), expected);
    assert_eq!(display_tree(&backward, "", true), expected);
    assert_eq!(display_tree(&forward, "", true), display_tree(&forward, "", true));
}

#[test]
fn an_unreadable_directory_is_reported_and_skipped() {
    let listing = Listing::Entries(vec![
        dir("open", vec![file("f")]),
        unreadable("locked", "root/locked", "Permission denied (os error 13)"),
        dir("zz", vec![]),
    ]);
    assert_eq!(
        display_tree(&listing, "", true),
        vec![
            line("├── locked"),
            error("Error reading directory root/locked: Permission denied (os error 13)"),
            line("├── open"),
            line("│   └── f"),
            line("└── zz"),
        ]
    );
}

#[test]
fn an_unreadable_root_is_reported_after_its_line() {
    let root = Root::Directory(Listing::Failed {
        path: "gone".to_string(),
        message: "No such file or directory (os error 2)".to_string(),
    });
    assert_eq!(
        run("gone", &root, false),
        Report {
            outputs: vec![
                line("gone"),
                error("Error reading directory gone: No such file or directory (os error 2)"),
            ],
            exit_code: 0,
        }
    );
}

#[test]
fn a_failed_listing_gives_its_diagnostic_alone() {
    let failed = Listing::Failed {
        path: "p".to_string(),
        message: "m".to_string(),
    };
    assert_eq!(
        display_tree(&failed, "│   ", true),
        vec![error("Error reading directory p: m")]
    );
}

#[test]
fn nodes_report_their_kind() {
    assert_eq!(Node::File.kind(), Kind::File);
    assert_eq!(Node::Other.kind(), Kind::Other);
    assert_eq!(
        Node::Directory(Listing::Entries(Vec::new())).kind(),
        Kind::Directory
    );
}

#[test]
fn a_deep_chain_keeps_its_indentation() {
    let mut tree = dir("d9", vec![]);
    for depth in (0..9).rev() {
        tree = dir(&format!("d{}", depth), vec![tree]);
    }
    let shown = display_tree(&Listing::Entries(vec![tree]), "", false);
    assert_eq!(shown.len(), 10);
    for (depth, output) in shown.iter().enumerate() {
        let expected = format!("{}└── d{}", "    ".repeat(depth), depth);
        assert_eq!(output, &line(&expected));
    }
}
