use superhist::names::{is_compressed, name_order, name_precedes};

fn s(x: &str) -> String {
    x.to_string()
}

#[test]
fn names_are_ordered_character_by_character() {
    assert!(name_precedes("a", "b"));
    assert!(!name_precedes("b", "a"));
    assert!(name_precedes("a", "ab"));
    assert!(!name_precedes("ab", "a"));
    assert!(!name_precedes("a", "a"));
    assert!(name_precedes("", "a"));
    assert!(!name_precedes("", ""));
    assert!(name_precedes("2023-12-31-23-59-59-box.xz", "2024-01-01-00-00-00-box.xz"));
    assert!(name_precedes("Z", "a"));
    assert!(name_precedes("z", "é"));
}

#[test]
fn name_order_agrees_with_the_standard_library() {
    let names = ["b", "a", "", "ab", "é", "a-b", "a", "B", "10", "9", "a\u{10000}", "a\u{ffff}"];
    for a in names {
        for b in names {
            assert_eq!(name_precedes(a, b), a < b);
            let (pa, pb) = (std::path::Path::new("/d").join(a), std::path::Path::new("/d").join(b));
            if !a.is_empty() && !b.is_empty() {
                assert_eq!(name_precedes(a, b), pa < pb);
            }
        }
    }
}

#[test]
fn archives_are_arranged_by_name() {
    let names = vec![
        s("2024-03-01-00-00-00-box.xz"),
        s("2023-01-01-00-00-00-box.xz"),
        s("2024-01-01-00-00-00-box.xz"),
        s("2023-01-01-00-00-00-box"),
    ];
    assert_eq!(name_order(&names), vec![3, 1, 2, 0]);
}

#[test]
fn equal_names_keep_their_order() {
    let names = vec![s("b"), s("a"), s("b"), s("a")];
    assert_eq!(name_order(&names), vec![1, 3, 0, 2]);
    assert_eq!(name_order(&vec![]), Vec::<usize>::new());
    assert_eq!(name_order(&vec![s("x")]), vec![0]);
}

#[test]
fn name_order_sorts_as_the_standard_library_does() {
    let names: Vec<String> = (0..200u32).map(|n| format!("{}-{}", (n * 7919) % 211, n % 3)).collect();
    let order = name_order(&names);
    let sorted: Vec<String> = order.iter().map(|&i| names[i].clone()).collect();
    let mut expected = names.clone();
    expected.sort();
    assert_eq!(sorted, expected);
}

#[test]
fn compressed_segments_end_in_xz() {
    assert!(is_compressed("2024-01-01-00-00-00-box.xz"));
    assert!(is_compressed(".xz"));
    assert!(!is_compressed("xz"));
    assert!(!is_compressed("a.xz "));
    assert!(!is_compressed("a.XZ"));
    assert!(!is_compressed("a.gz"));
    assert!(!is_compressed(""));
}
