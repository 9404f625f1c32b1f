use onig_names::{NameEntry, NameError, NameTable, Names, Regex};

fn entry(name: &str, groups: &[i32]) -> NameEntry {
    NameEntry::from_groups(name.as_bytes().to_vec(), groups.len() as i32, groups.to_vec())
}

fn plain_groups() -> Regex {
    // "(he)(l+)(o)": no group has a name, so the engine keeps no table.
    Regex::from_table(None, 0).unwrap()
}

fn foo_bar() -> Regex {
    // "(?<foo>he)(?<bar>l+)(?<bar>o)": `foo` labels group 1, `bar` groups 2 and 3.
    let table = NameTable { bins: vec![vec![entry("foo", &[1]), entry("bar", &[2, 3])]] };
    Regex::from_table(Some(table), 2).unwrap()
}

fn drain(mut it: Names<'_>) -> Vec<Result<(&str, &[i32]), NameError>> {
    let mut out = Vec::new();
    while let Some(x) = it.next() {
        out.push(x);
    }
    out
}

#[test]
fn test_regex_names_len() {
    let regex = plain_groups();
    assert_eq!(regex.names_len(), 0);
    let regex = foo_bar();
    assert_eq!(regex.names_len(), 2);
}

#[test]
fn test_regex_names() {
    let regex = plain_groups();
    let names = regex.names().collect_all().unwrap();
    assert_eq!(names, vec![]);
    let regex = foo_bar();
    let names = regex.names().collect_all().unwrap();
    assert_eq!(names, [("foo", &[1] as &[i32]), ("bar", &[2, 3] as &[i32])]);
}

#[test]
fn no_named_groups_yields_nothing() {
    let regex = plain_groups();
    assert_eq!(regex.names_len(), 0);
    let mut it = regex.names();
    assert!(it.next().is_none());
    assert!(it.next().is_none());
}

#[test]
fn present_but_empty_table_yields_nothing() {
    let regex = Regex::from_table(Some(NameTable { bins: vec![vec![], vec![], vec![]] }), 0).unwrap();
    assert_eq!(regex.names_len(), 0);
    assert_eq!(regex.names().collect_all(), Ok(vec![]));
}

#[test]
fn two_names_one_shared() {
    let regex = foo_bar();
    assert_eq!(regex.names_len(), 2);
    let names = regex.names().collect_all().unwrap();
    assert_eq!(names.len(), 2);
    let bar = names.iter().find(|p| p.0 == "bar").unwrap();
    assert_eq!(bar.1, &[2, 3]);
    let foo = names.iter().find(|p| p.0 == "foo").unwrap();
    assert_eq!(foo.1, &[1]);
}

#[test]
fn scenario_foo_bar_across_buckets() {
    let table = NameTable {
        bins: vec![vec![], vec![entry("foo", &[1])], vec![], vec![entry("bar", &[2, 3])], vec![]],
    };
    let regex = Regex::from_table(Some(table), 2).unwrap();
    let mut it = regex.names();
    assert_eq!(it.next(), Some(Ok(("foo", &[1] as &[i32]))));
    assert_eq!(it.next(), Some(Ok(("bar", &[2, 3] as &[i32]))));
    assert_eq!(it.next(), None);
    assert_eq!(it.next(), None);
}

#[test]
fn chain_is_walked_head_to_tail() {
    let table = NameTable {
        bins: vec![
            vec![entry("b", &[2]), entry("a", &[1]), entry("c", &[3, 4])],
            vec![],
            vec![entry("d", &[5])],
        ],
    };
    let regex = Regex::from_table(Some(table), 4).unwrap();
    let names: Vec<&str> = regex.names().collect_all().unwrap().iter().map(|p| p.0).collect();
    assert_eq!(names, vec!["b", "a", "c", "d"]);
}

#[test]
fn fresh_iterators_agree() {
    let regex = foo_bar();
    let first = regex.names().collect_all();
    let second = regex.names().collect_all();
    let third = drain(regex.names());
    assert_eq!(first, second);
    assert_eq!(third, first.unwrap().into_iter().map(Ok).collect::<Vec<_>>());
}

#[test]
fn each_record_once_and_count_matches() {
    let table = NameTable {
        bins: vec![vec![entry("x", &[1]), entry("y", &[2])], vec![entry("z", &[3, 5, 7])]],
    };
    let regex = Regex::from_table(Some(table), 3).unwrap();
    let names = regex.names().collect_all().unwrap();
    assert_eq!(names.len(), regex.names_len());
    assert_eq!(
        names,
        vec![("x", &[1] as &[i32]), ("y", &[2] as &[i32]), ("z", &[3, 5, 7] as &[i32])]
    );
}

#[test]
fn early_stop_leaves_later_walks_whole() {
    let regex = foo_bar();
    {
        let mut it = regex.names();
        assert_eq!(it.next(), Some(Ok(("foo", &[1] as &[i32]))));
    }
    let names = regex.names().collect_all().unwrap();
    assert_eq!(names, [("foo", &[1] as &[i32]), ("bar", &[2, 3] as &[i32])]);
}

#[test]
fn collect_all_continues_from_cursor() {
    let regex = foo_bar();
    let mut it = regex.names();
    it.next();
    assert_eq!(it.collect_all(), Ok(vec![("bar", &[2, 3] as &[i32])]));
}

#[test]
fn non_ascii_name_is_decoded() {
    let table = NameTable { bins: vec![vec![entry("名前", &[1])]] };
    let regex = Regex::from_table(Some(table), 1).unwrap();
    assert_eq!(regex.names().collect_all(), Ok(vec![("名前", &[1] as &[i32])]));
}

#[test]
fn inline_and_array_layouts() {
    let one = NameEntry::from_groups(b"one".to_vec(), 1, vec![4]);
    assert_eq!(one.back_num, 1);
    assert_eq!(one.back_ref1, 4);
    assert!(one.back_refs.is_empty());
    let two = NameEntry::from_groups(b"two".to_vec(), 2, vec![5, 6]);
    assert_eq!(two.back_num, 2);
    assert_eq!(two.back_refs, vec![5, 6]);
}

#[test]
fn missing_groups_is_a_fault_and_ends_the_walk() {
    let bad = NameEntry { name: b"bad".to_vec(), back_num: 0, back_ref1: 9, back_refs: vec![] };
    let table = NameTable { bins: vec![vec![bad, entry("ok", &[1])]] };
    let regex = Regex::from_table(Some(table), 2).unwrap();
    let mut it = regex.names();
    assert_eq!(it.next(), Some(Err(NameError::MissingGroups)));
    assert_eq!(it.next(), None);
    assert_eq!(regex.names().collect_all(), Err(NameError::MissingGroups));
}

#[test]
fn group_count_mismatch_is_a_fault() {
    let bad = NameEntry { name: b"bad".to_vec(), back_num: 3, back_ref1: 0, back_refs: vec![1, 2] };
    let table = NameTable { bins: vec![vec![entry("ok", &[1])], vec![bad]] };
    let regex = Regex::from_table(Some(table), 2).unwrap();
    let mut it = regex.names();
    assert_eq!(it.next(), Some(Ok(("ok", &[1] as &[i32]))));
    assert_eq!(it.next(), Some(Err(NameError::GroupCountMismatch)));
    assert_eq!(it.next(), None);
}

#[test]
fn invalid_name_is_a_fault() {
    let bad = NameEntry { name: vec![0x66, 0xff, 0x6f], back_num: 1, back_ref1: 1, back_refs: vec![] };
    let table = NameTable { bins: vec![vec![bad]] };
    let regex = Regex::from_table(Some(table), 1).unwrap();
    assert_eq!(regex.names().collect_all(), Err(NameError::InvalidName));
}

#[test]
fn name_count_mismatch_is_refused() {
    let table = || NameTable { bins: vec![vec![entry("a", &[1])], vec![entry("b", &[2])]] };
    assert_eq!(Regex::from_table(Some(table()), 1).err(), Some(NameError::NameCountMismatch));
    assert_eq!(Regex::from_table(Some(table()), 3).err(), Some(NameError::NameCountMismatch));
    assert_eq!(Regex::from_table(Some(table()), -1).err(), Some(NameError::NameCountMismatch));
    assert_eq!(Regex::from_table(None, 1).err(), Some(NameError::NameCountMismatch));
    assert!(Regex::from_table(Some(table()), 2).is_ok());
}
