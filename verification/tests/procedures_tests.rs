use superhist::procedures::{auto_alias, has_unique_aliases, Procedure, Procedures};

fn proc_(command: &str) -> Procedure {
    Procedure { command: command.to_string() }
}

fn item(alias: &str, command: &str) -> (String, Procedure) {
    (alias.to_string(), proc_(command))
}

fn s(x: &str) -> String {
    x.to_string()
}

#[test]
fn new_registry_is_empty() {
    let p = Procedures::new();
    assert!(p.get(&s("/home")).is_none());
    assert!(p.entries().is_empty());
    assert!(Procedures::default().entries().is_empty());
}

#[test]
fn first_automatic_alias_is_cmd1() {
    let mut p = Procedures::new();
    assert_eq!(p.add_command(None, s("/home"), s("echo hi")), 1);
    assert_eq!(p.get(&s("/home")), Some(&vec![item("cmd1", "echo hi")]));
}

#[test]
fn next_automatic_alias_is_cmd2() {
    let mut p = Procedures::new();
    p.add_command(None, s("/home"), s("echo hi"));
    assert_eq!(p.add_command(None, s("/home"), s("echo bye")), 2);
    assert_eq!(p.get(&s("/home")), Some(&vec![item("cmd1", "echo hi"), item("cmd2", "echo bye")]));
}

#[test]
fn deleted_alias_is_used_again() {
    let mut p = Procedures::new();
    p.add_command(None, s("/home"), s("one"));
    p.add_command(None, s("/home"), s("two"));
    p.remove_at(&s("/home"), 0);
    assert_eq!(p.get(&s("/home")), Some(&vec![item("cmd2", "two")]));
    assert_eq!(p.add_command(None, s("/home"), s("three")), 2);
    assert_eq!(p.get(&s("/home")), Some(&vec![item("cmd2", "two"), item("cmd1", "three")]));
}

#[test]
fn lowest_unused_alias_wins() {
    let mut p = Procedures::new();
    for alias in ["cmd1", "cmd2", "cmd4", "other", "cmd03"] {
        p.add_command(Some(s(alias)), s("/w"), s("x"));
    }
    p.add_command(None, s("/w"), s("y"));
    assert_eq!(p.get(&s("/w")).unwrap().last(), Some(&item("cmd3", "y")));
    p.add_command(None, s("/w"), s("z"));
    assert_eq!(p.get(&s("/w")).unwrap().last(), Some(&item("cmd5", "z")));
}

#[test]
fn automatic_alias_counts_past_nine() {
    let mut p = Procedures::new();
    for _ in 0..11 {
        p.add_command(None, s("/w"), s("x"));
    }
    let list = p.get(&s("/w")).unwrap();
    assert_eq!(list[9].0, "cmd10");
    assert_eq!(list[10].0, "cmd11");
    assert_eq!(auto_alias(list), "cmd12");
}

#[test]
fn aliases_are_allocated_per_directory() {
    let mut p = Procedures::new();
    p.add_command(None, s("/a"), s("x"));
    assert_eq!(p.add_command(None, s("/b"), s("y")), 1);
    assert_eq!(p.get(&s("/b")), Some(&vec![item("cmd1", "y")]));
    assert_eq!(p.get(&s("/a")), Some(&vec![item("cmd1", "x")]));
}

#[test]
fn given_alias_is_taken_as_it_is() {
    let mut p = Procedures::new();
    assert!(!p.uses_alias(&s("/a"), &s("build")));
    assert_eq!(p.add_command(Some(s("build")), s("/a"), s("make")), 1);
    assert_eq!(p.add_command(Some(s("cmd1")), s("/a"), s("make -B")), 2);
    assert_eq!(p.get(&s("/a")), Some(&vec![item("build", "make"), item("cmd1", "make -B")]));
    assert_eq!(p.add_command(None, s("/a"), s("ls")), 3);
    assert_eq!(p.get(&s("/a")).unwrap().last(), Some(&item("cmd2", "ls")));
}

#[test]
fn used_aliases_are_told() {
    let mut p = Procedures::new();
    p.add_command(Some(s("build")), s("/a"), s("make"));
    p.add_command(None, s("/a"), s("ls"));
    assert!(p.uses_alias(&s("/a"), &s("build")));
    assert!(p.uses_alias(&s("/a"), &s("cmd1")));
    assert!(!p.uses_alias(&s("/a"), &s("cmd2")));
    assert!(!p.uses_alias(&s("/a"), &s("Build")));
    assert!(!p.uses_alias(&s("/b"), &s("build")));
    p.remove_at(&s("/a"), 0);
    assert!(!p.uses_alias(&s("/a"), &s("build")));
}

#[test]
fn list_with_an_alias_twice_is_not_taken() {
    let mut p = Procedures::new();
    assert!(p.insert(s("/a"), vec![item("x", "1"), item("y", "2")]));
    assert!(!p.insert(s("/a"), vec![item("z", "3"), item("z", "4")]));
    assert!(!p.insert(s("/b"), vec![item("z", "3"), item("w", "0"), item("z", "4")]));
    assert_eq!(p.get(&s("/a")), Some(&vec![item("x", "1"), item("y", "2")]));
    assert!(p.get(&s("/b")).is_none());
    assert!(p.insert(s("/b"), vec![]));
}

#[test]
fn unique_aliases_are_recognised() {
    assert!(has_unique_aliases(&vec![]));
    assert!(has_unique_aliases(&vec![item("a", "1")]));
    assert!(has_unique_aliases(&vec![item("a", "1"), item("b", "1"), item("c", "1")]));
    assert!(!has_unique_aliases(&vec![item("a", "1"), item("b", "2"), item("a", "3")]));
    assert!(!has_unique_aliases(&vec![item("a", "1"), item("a", "1")]));
    assert!(!has_unique_aliases(&vec![item("b", "1"), item("a", "2"), item("a", "3")]));
}

#[test]
fn auto_alias_of_an_empty_list() {
    assert_eq!(auto_alias(&vec![]), "cmd1");
}

#[test]
fn insert_replaces_a_list() {
    let mut p = Procedures::new();
    p.insert(s("/a"), vec![item("x", "1")]);
    p.insert(s("/b"), vec![item("y", "2")]);
    p.insert(s("/a"), vec![item("z", "3"), item("w", "4")]);
    assert_eq!(p.get(&s("/a")), Some(&vec![item("z", "3"), item("w", "4")]));
    assert_eq!(p.get(&s("/b")), Some(&vec![item("y", "2")]));
    assert_eq!(p.entries().len(), 2);
}

#[test]
fn remove_at_outside_the_list_changes_nothing() {
    let mut p = Procedures::new();
    p.insert(s("/a"), vec![item("x", "1")]);
    p.remove_at(&s("/a"), 1);
    p.remove_at(&s("/b"), 0);
    assert_eq!(p.get(&s("/a")), Some(&vec![item("x", "1")]));
    assert!(p.get(&s("/b")).is_none());
    p.remove_at(&s("/a"), 0);
    assert_eq!(p.get(&s("/a")), Some(&vec![]));
}

#[test]
fn set_command_keeps_the_alias() {
    let mut p = Procedures::new();
    p.insert(s("/a"), vec![item("x", "1"), item("y", "2")]);
    p.set_command(&s("/a"), 1, s("two"));
    p.set_command(&s("/a"), 2, s("three"));
    p.set_command(&s("/b"), 0, s("none"));
    assert_eq!(p.get(&s("/a")), Some(&vec![item("x", "1"), item("y", "two")]));
    assert!(p.get(&s("/b")).is_none());
}

#[test]
fn clone_of_a_registry_holds_the_same() {
    let mut p = Procedures::new();
    p.insert(s("/a"), vec![item("x", "1")]);
    p.insert(s("/b"), vec![]);
    let q = p.clone();
    assert_eq!(q.entries(), p.entries());
    assert_eq!(proc_("ls").clone(), proc_("ls"));
}
