use dtree::args::{Args, DEFAULT_PATH};
use dtree::report::Output;
use dtree::root::{check_root, RootError, EXIT_FAILURE, EXIT_SUCCESS};
use dtree::tree::{display_tree, Child, Listing, Node};
use std::path::Path;

fn line(text: &str) -> Output {
    Output::Line(text.to_string())
}

#[test]
fn test_args_parsing() {
    let args = Args {
        show_files: false,
        path: ".".to_string(),
    };
    assert!(!args.show_files);
    assert_eq!(args.path, ".");
}

#[test]
fn test_args_with_files_flag() {
    let args = Args {
        show_files: true,
        path: "/some/path".to_string(),
    };
    assert!(args.show_files);
    assert_eq!(args.path, "/some/path");
}

#[test]
fn test_display_tree_with_empty_directory() {
    let empty = Listing::Entries(Vec::new());
    let shown = display_tree(&empty, "", false);
    assert_eq!(shown, Vec::<Output>::new());
}

#[test]
fn test_display_tree_with_files() {
    let directory = Listing::Entries(vec![
        Child {
            name: "test.txt".to_string(),
            node: Node::File,
        },
        Child {
            name: "subdir".to_string(),
            node: Node::Directory(Listing::Entries(Vec::new())),
        },
    ]);

    let with_files = display_tree(&directory, "", true);
    assert_eq!(with_files, vec![line("├── subdir"), line("└── test.txt")]);

    let without_files = display_tree(&directory, "", false);
    assert_eq!(without_files, vec![line("└── subdir")]);
}

#[test]
fn test_path_validation() {
    let current_dir = Path::new(".");
    assert!(current_dir.exists());
    assert!(current_dir.is_dir());
    assert_eq!(
        check_root(current_dir.exists(), current_dir.is_dir()),
        Ok(())
    );
}

#[test]
fn test_nonexistent_path() {
    let fake_path = Path::new("/this/path/should/not/exist/hopefully");
    assert!(!fake_path.exists());
    assert_eq!(
        check_root(fake_path.exists(), fake_path.is_dir()),
        Err(RootError::Missing)
    );
}

#[test]
fn args_default_to_current_directory_without_files() {
    let args = Args::default();
    assert!(!args.show_files);
    assert_eq!(args.path, ".");
    assert_eq!(DEFAULT_PATH, ".");
}

#[test]
fn args_new_keeps_both_fields() {
    let args = Args::new(true, "src".to_string());
    assert_eq!(
        args,
        Args {
            show_files: true,
            path: "src".to_string()
        }
    );
}

#[test]
fn root_check_distinguishes_the_three_cases() {
    assert_eq!(check_root(false, false), Err(RootError::Missing));
    assert_eq!(check_root(false, true), Err(RootError::Missing));
    assert_eq!(check_root(true, false), Err(RootError::NotDirectory));
    assert_eq!(check_root(true, true), Ok(()));
}

#[test]
fn root_error_messages_name_the_path() {
    assert_eq!(
        RootError::Missing.message("/no/such"),
        "Error: Path '/no/such' does not exist"
    );
    assert_eq!(
        RootError::NotDirectory.message("notes.txt"),
        "Error: Path 'notes.txt' is not a directory"
    );
    assert_ne!(
        RootError::Missing.message("x"),
        RootError::NotDirectory.message("x")
    );
}

#[test]
fn exit_codes_are_zero_and_one() {
    assert_eq!(EXIT_SUCCESS, 0);
    assert_eq!(EXIT_FAILURE, 1);
    assert_eq!(RootError::Missing.exit_code(), 1);
    assert_eq!(RootError::NotDirectory.exit_code(), 1);
}
