use huddletalk::table::{NameSet, Table};
use huddletalk::text::{at_most, join3, same_text, to_decimal};

fn owned(names: &[&str]) -> Vec<String> {
    names.iter().map(|name| name.to_string()).collect()
}

#[test]
fn table_keeps_one_value_per_key() {
    let mut table: Table<u32> = Table::new();
    assert!(table.is_empty());
    table.insert("a".to_owned(), 1);
    table.insert("b".to_owned(), 2);
    table.insert("a".to_owned(), 3);
    assert_eq!(table.len(), 2);
    assert_eq!(table.get("a"), Some(&3));
    assert_eq!(table.get("b"), Some(&2));
    assert_eq!(table.get("c"), None);
    assert!(table.contains_key("b"));
    let mut keys = table.keys();
    keys.sort();
    assert_eq!(keys, owned(&["a", "b"]));
    let (key, value) = table.at(0);
    assert_eq!(table.get(key), Some(value));
    assert_eq!(table.remove("a"), Some(3));
    assert_eq!(table.remove("a"), None);
    assert!(!table.contains_key("a"));
    assert_eq!(table.len(), 1);
}

#[test]
fn set_holds_each_name_once() {
    let mut set = NameSet::new();
    assert!(set.is_empty());
    set.insert("x".to_owned());
    set.insert("y".to_owned());
    set.insert("x".to_owned());
    let mut members = set.members();
    members.sort();
    assert_eq!(members, owned(&["x", "y"]));
    assert_eq!(set.members_except("x"), owned(&["y"]));
    assert_eq!(set.members_except("z").len(), 2);
    assert!(set.remove("x"));
    assert!(!set.remove("x"));
    assert!(!set.contains("x"));
    assert!(set.contains("y"));
}

#[test]
fn text_is_ordered_as_the_standard_library_orders_it() {
    let samples = ["", "a", "ab", "b", "B", "\u{e9}", "\u{ffff}", "\u{10000}", "a\u{0}", "aa"];
    for left in samples {
        for right in samples {
            assert_eq!(at_most(left, right), left <= right, "{left:?} {right:?}");
            assert_eq!(same_text(left, right), left == right, "{left:?} {right:?}");
        }
    }
}

#[test]
fn numbers_are_written_as_the_standard_library_writes_them() {
    for n in [0usize, 7, 10, 99, 100, 65_536, usize::MAX] {
        assert_eq!(to_decimal(n), n.to_string());
    }
}

#[test]
fn parts_are_joined_in_turn() {
    assert_eq!(join3("room '", "caf\u{e9}", "' not found"), "room 'caf\u{e9}' not found");
}
