use dtree::arrange::{arrange, is_kept};
use dtree::entry::{Entry, Kind};
use dtree::order::{compare_bytes, compare_entries, compare_names, Precedence};

fn entry(name: &str, kind: Kind) -> Entry {
    Entry::new(name.to_string(), kind)
}

#[test]
fn bytes_compare_lexicographically() {
    assert_eq!(compare_bytes(b"abc", b"abd"), Precedence::Before);
    assert_eq!(compare_bytes(b"abd", b"abc"), Precedence::After);
    assert_eq!(compare_bytes(b"abc", b"abc"), Precedence::Tied);
    assert_eq!(compare_bytes(b"", b""), Precedence::Tied);
}

#[test]
fn a_proper_prefix_sorts_first() {
    assert_eq!(compare_bytes(b"ab", b"abc"), Precedence::Before);
    assert_eq!(compare_bytes(b"abc", b"ab"), Precedence::After);
    assert_eq!(compare_bytes(b"", b"a"), Precedence::Before);
    assert_eq!(compare_bytes(b"a", b""), Precedence::After);
}

#[test]
fn the_first_difference_decides() {
    assert_eq!(compare_bytes(b"az", b"b"), Precedence::Before);
    assert_eq!(compare_bytes(&[0x01, 0xff], &[0x02]), Precedence::Before);
    assert_eq!(compare_bytes(&[0x80], &[0x7f, 0xff]), Precedence::After);
}

#[test]
fn names_are_not_collated() {
    // Upper case sorts before lower case, digits before letters.
    assert_eq!(compare_names("Zebra", "apple"), Precedence::Before);
    assert_eq!(compare_names("apple", "Zebra"), Precedence::After);
    assert_eq!(compare_names("10", "9"), Precedence::Before);
    assert_eq!(compare_names("file10", "file9"), Precedence::Before);
    assert_eq!(compare_names("_x", "a"), Precedence::Before);
}

#[test]
fn names_beyond_ascii_sort_by_code_point() {
    assert_eq!(compare_names("z", "é"), Precedence::Before);
    assert_eq!(compare_names("é", "日本"), Precedence::Before);
    assert_eq!(compare_names("日本", "😀"), Precedence::Before);
    assert_eq!(compare_names("é", "é"), Precedence::Tied);
}

#[test]
fn names_agree_with_the_standard_string_order() {
    let names = ["", "a", "A", "ab", "b", "é", "e", "~", "日本", "a b", "a-b", "😀"];
    for x in names {
        for y in names {
            let expected = if x < y {
                Precedence::Before
            } else if x > y {
                Precedence::After
            } else {
                Precedence::Tied
            };
            assert_eq!(compare_names(x, y), expected);
        }
    }
}

#[test]
fn names_sort_as_their_code_points_do() {
    let names = ["", "a", "Z", "z", "\u{7f}", "\u{80}", "é", "\u{7ff}", "\u{800}", "日", "\u{ffff}",
        "\u{10000}", "😀", "\u{10ffff}", "aé", "a日", "a😀", "éa", "日a"];
    for x in names {
        for y in names {
            let expected = if x.chars().lt(y.chars()) {
                Precedence::Before
            } else if y.chars().lt(x.chars()) {
                Precedence::After
            } else {
                Precedence::Tied
            };
            assert_eq!(compare_names(x, y), expected);
        }
    }
}

#[test]
fn a_directory_sorts_before_a_file_whatever_the_names() {
    let dir = entry("zzz", Kind::Directory);
    let file = entry("aaa", Kind::File);
    let other = entry("aaa", Kind::Other);
    assert_eq!(compare_entries(&dir, &file), Precedence::Before);
    assert_eq!(compare_entries(&file, &dir), Precedence::After);
    assert_eq!(compare_entries(&dir, &other), Precedence::Before);
    assert_eq!(compare_entries(&other, &dir), Precedence::After);
}

#[test]
fn entries_of_one_class_sort_by_name() {
    assert_eq!(
        compare_entries(&entry("a", Kind::Directory), &entry("b", Kind::Directory)),
        Precedence::Before
    );
    assert_eq!(
        compare_entries(&entry("b", Kind::File), &entry("a", Kind::File)),
        Precedence::After
    );
    assert_eq!(
        compare_entries(&entry("a", Kind::File), &entry("b", Kind::Other)),
        Precedence::Before
    );
    assert_eq!(
        compare_entries(&entry("same", Kind::File), &entry("same", Kind::Other)),
        Precedence::Tied
    );
}

#[test]
fn a_kind_follows_from_what_the_system_says() {
    assert_eq!(Kind::of(true, false), Kind::Directory);
    assert_eq!(Kind::of(false, true), Kind::File);
    assert_eq!(Kind::of(false, false), Kind::Other);
    assert_eq!(Kind::of(true, true), Kind::Directory);
}

#[test]
fn kinds_report_what_they_are() {
    assert!(Kind::Directory.is_directory());
    assert!(!Kind::File.is_directory());
    assert!(!Kind::Other.is_directory());
    assert!(Kind::File.is_file());
    assert!(!Kind::Directory.is_file());
    assert!(!Kind::Other.is_file());
}

#[test]
fn directories_are_always_kept_files_on_request_others_never() {
    assert!(is_kept(Kind::Directory, false));
    assert!(is_kept(Kind::Directory, true));
    assert!(!is_kept(Kind::File, false));
    assert!(is_kept(Kind::File, true));
    assert!(!is_kept(Kind::Other, false));
    assert!(!is_kept(Kind::Other, true));
}

#[test]
fn arrange_sorts_directories_first_then_names() {
    let entries = vec![
        entry("b.txt", Kind::File),
        entry("zeta", Kind::Directory),
        entry("a.txt", Kind::File),
        entry("alpha", Kind::Directory),
        entry("socket", Kind::Other),
    ];
    assert_eq!(arrange(&entries, true), vec![3, 1, 2, 0]);
    assert_eq!(arrange(&entries, false), vec![3, 1]);
}

#[test]
fn arrange_of_nothing_is_nothing() {
    assert_eq!(arrange(&Vec::new(), true), Vec::<usize>::new());
    assert_eq!(arrange(&vec![entry("f", Kind::File)], false), Vec::<usize>::new());
    assert_eq!(arrange(&vec![entry("o", Kind::Other)], true), Vec::<usize>::new());
}

#[test]
fn arrange_keeps_tied_entries_in_listing_order() {
    let entries = vec![
        entry("twin", Kind::Directory),
        entry("a", Kind::Directory),
        entry("twin", Kind::Directory),
        entry("twin", Kind::Directory),
    ];
    assert_eq!(arrange(&entries, false), vec![1, 0, 2, 3]);
}

#[test]
fn arrange_does_not_depend_on_listing_order() {
    let names = ["delta", "Alpha", "charlie", "bravo", "echo", "10", "9", "é"];
    let forward: Vec<Entry> = names.iter().map(|n| entry(n, Kind::Directory)).collect();
    let backward: Vec<Entry> = names.iter().rev().map(|n| entry(n, Kind::Directory)).collect();
    let shown_forward: Vec<String> = arrange(&forward, false)
        .into_iter()
        .map(|i| forward[i].name.clone())
        .collect();
    let shown_backward: Vec<String> = arrange(&backward, false)
        .into_iter()
        .map(|i| backward[i].name.clone())
        .collect();
    let expected = vec!["10", "9", "Alpha", "bravo", "charlie", "delta", "echo", "é"];
    assert_eq!(shown_forward, expected);
    assert_eq!(shown_backward, expected);
}

#[test]
fn arrange_handles_a_long_listing() {
    let count: usize = 1000;
    let mut entries = Vec::new();
    for i in 0..count {
        // Names in descending order, files and directories alternating.
        let kind = if i % 2 == 0 { Kind::File } else { Kind::Directory };
        entries.push(entry(&format!("{:04}", count - 1 - i), kind));
    }
    let order = arrange(&entries, true);
    assert_eq!(order.len(), count);
    for pair in order.windows(2) {
        let (x, y) = (&entries[pair[0]], &entries[pair[1]]);
        assert_eq!(compare_entries(x, y), Precedence::Before);
    }
    assert_eq!(entries[order[0]].kind, Kind::Directory);
    assert_eq!(entries[order[0]].name, "0000");
    assert_eq!(entries[order[count - 1]].kind, Kind::File);
    assert_eq!(entries[order[count - 1]].name, "0999");
}
