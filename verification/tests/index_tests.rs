use superhist::index::SlotIndex;

fn s(x: &str) -> String {
    x.to_string()
}

#[test]
fn new_index_holds_nothing() {
    let index = SlotIndex::new();
    assert_eq!(index.get(&s("a"), 0), None);
    assert_eq!(index.get(&s(""), 0), None);
}

#[test]
fn index_gives_back_what_was_put_in() {
    let mut index = SlotIndex::new();
    index.insert(s("/dev/pts/1"), 1, 0);
    index.insert(s("/dev/pts/1"), 2, 7);
    index.insert(s("/dev/pts/2"), 1, 9);
    index.insert(s(""), 0, 3);
    assert_eq!(index.get(&s("/dev/pts/1"), 1), Some(0));
    assert_eq!(index.get(&s("/dev/pts/1"), 2), Some(7));
    assert_eq!(index.get(&s("/dev/pts/2"), 1), Some(9));
    assert_eq!(index.get(&s(""), 0), Some(3));
    assert_eq!(index.get(&s("/dev/pts/2"), 2), None);
    assert_eq!(index.get(&s("/dev/pts/3"), 1), None);
}

#[test]
fn later_entry_takes_the_place_of_an_earlier() {
    let mut index = SlotIndex::new();
    index.insert(s("t"), 5, 1);
    index.insert(s("t"), 5, 2);
    assert_eq!(index.get(&s("t"), 5), Some(2));
}

#[test]
fn index_holds_many_entries() {
    let mut index = SlotIndex::new();
    for n in 0..2000u64 {
        index.insert(format!("cmd {}", n % 50), n, (n * 3) as u32);
    }
    for n in 0..2000u64 {
        assert_eq!(index.get(&format!("cmd {}", n % 50), n), Some((n * 3) as u32));
        assert_eq!(index.get(&format!("cmd {}", (n + 1) % 50), n), None);
    }
}
