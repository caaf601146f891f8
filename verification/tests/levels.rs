use dtree::entry::{Entry, Kind};
use dtree::glyph::{
    branch, child_prefix, entry_line, indent, BAR_INDENT, BLANK_INDENT, BRANCH, LAST_BRANCH,
};
use dtree::level::{plan_level, Row};
use dtree::report::read_error_line;

fn entry(name: &str, kind: Kind) -> Entry {
    Entry::new(name.to_string(), kind)
}

fn row(source: usize, line: &str, descend: Option<&str>) -> Row {
    Row {
        source,
        line: line.to_string(),
        descend: descend.map(|prefix| prefix.to_string()),
    }
}

#[test]
fn glyphs_are_the_fixed_literals() {
    assert_eq!(BRANCH, "├── ");
    assert_eq!(LAST_BRANCH, "└── ");
    assert_eq!(BAR_INDENT, "│   ");
    assert_eq!(BLANK_INDENT, "    ");
    assert_eq!(branch(false), "├── ");
    assert_eq!(branch(true), "└── ");
    assert_eq!(indent(false), "│   ");
    assert_eq!(indent(true), "    ");
}

#[test]
fn glyphs_are_four_columns_wide() {
    for text in [BRANCH, LAST_BRANCH, BAR_INDENT, BLANK_INDENT] {
        assert_eq!(text.chars().count(), 4);
    }
}

#[test]
fn a_line_is_prefix_glyph_name() {
    assert_eq!(entry_line("", "src", false), "├── src");
    assert_eq!(entry_line("", "src", true), "└── src");
    assert_eq!(entry_line("│   ", "main.rs", false), "│   ├── main.rs");
    assert_eq!(entry_line("│       ", "main.rs", true), "│       └── main.rs");
    assert_eq!(entry_line("", "", true), "└── ");
}

#[test]
fn a_child_prefix_extends_the_prefix_by_one_unit() {
    assert_eq!(child_prefix("", false), "│   ");
    assert_eq!(child_prefix("", true), "    ");
    assert_eq!(child_prefix("│   ", true), "│       ");
    assert_eq!(child_prefix("    ", false), "    │   ");
}

#[test]
fn a_read_error_names_path_and_reason() {
    assert_eq!(
        read_error_line("root/locked", "Permission denied (os error 13)"),
        "Error reading directory root/locked: Permission denied (os error 13)"
    );
    assert_eq!(read_error_line("", ""), "Error reading directory : ");
}

#[test]
fn directories_sort_before_files_at_the_same_level() {
    let entries = vec![entry("b.txt", Kind::File), entry("a_dir", Kind::Directory)];
    let rows = plan_level(&entries, "", true);
    assert_eq!(
        rows,
        vec![
            row(1, "├── a_dir", Some("│   ")),
            row(0, "└── b.txt", None),
        ]
    );
}

#[test]
fn a_directory_sorts_first_even_when_its_name_sorts_last() {
    let entries = vec![entry("a.txt", Kind::File), entry("z_dir", Kind::Directory)];
    let rows = plan_level(&entries, "", true);
    assert_eq!(
        rows,
        vec![
            row(1, "├── z_dir", Some("│   ")),
            row(0, "└── a.txt", None),
        ]
    );
}

#[test]
fn only_the_last_row_bears_the_last_glyph() {
    let entries = vec![
        entry("c", Kind::Directory),
        entry("a", Kind::Directory),
        entry("b", Kind::Directory),
    ];
    let rows = plan_level(&entries, ">", false);
    assert_eq!(
        rows,
        vec![
            row(1, ">├── a", Some(">│   ")),
            row(2, ">├── b", Some(">│   ")),
            row(0, ">└── c", Some(">    ")),
        ]
    );
}

#[test]
fn a_single_row_is_the_last_row() {
    let rows = plan_level(&vec![entry("only", Kind::File)], "", true);
    assert_eq!(rows, vec![row(0, "└── only", None)]);
}

#[test]
fn files_are_left_out_unless_asked_for() {
    let entries = vec![
        entry("notes.txt", Kind::File),
        entry("src", Kind::Directory),
        entry("Cargo.toml", Kind::File),
    ];
    assert_eq!(
        plan_level(&entries, "", false),
        vec![row(1, "└── src", Some("    "))]
    );
    assert_eq!(
        plan_level(&entries, "", true),
        vec![
            row(1, "├── src", Some("│   ")),
            row(2, "├── Cargo.toml", None),
            row(0, "└── notes.txt", None),
        ]
    );
}

#[test]
fn entries_that_are_neither_are_never_shown() {
    let entries = vec![
        entry("link", Kind::Other),
        entry("dir", Kind::Directory),
        entry("pipe", Kind::Other),
    ];
    assert_eq!(
        plan_level(&entries, "", true),
        vec![row(1, "└── dir", Some("    "))]
    );
    assert_eq!(
        plan_level(&entries, "", false),
        vec![row(1, "└── dir", Some("    "))]
    );
}

#[test]
fn the_last_glyph_goes_to_the_last_kept_entry() {
    // The entry that sorts last is filtered out; the glyph moves up.
    let entries = vec![
        entry("a", Kind::Directory),
        entry("b", Kind::Directory),
        entry("z.txt", Kind::File),
    ];
    assert_eq!(
        plan_level(&entries, "", false),
        vec![
            row(0, "├── a", Some("│   ")),
            row(1, "└── b", Some("    ")),
        ]
    );
}

#[test]
fn a_level_with_nothing_kept_has_no_rows() {
    assert_eq!(plan_level(&Vec::new(), "", true), Vec::<Row>::new());
    assert_eq!(plan_level(&Vec::new(), "│   ", false), Vec::<Row>::new());
    let files = vec![entry("a", Kind::File), entry("b", Kind::File)];
    assert_eq!(plan_level(&files, "", false), Vec::<Row>::new());
    let others = vec![entry("a", Kind::Other)];
    assert_eq!(plan_level(&others, "", true), Vec::<Row>::new());
}

#[test]
fn rows_name_their_place_in_the_listing() {
    let entries = vec![
        entry("three", Kind::Directory),
        entry("one", Kind::Directory),
        entry("skipped", Kind::Other),
        entry("two", Kind::Directory),
    ];
    let rows = plan_level(&entries, "", false);
    let sources: Vec<usize> = rows.iter().map(|r| r.source).collect();
    assert_eq!(sources, vec![1, 0, 3]);
    for r in &rows {
        assert!(r.line.ends_with(entries[r.source].name.as_str()));
    }
}
