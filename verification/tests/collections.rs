use tuwunel::collections::append_texts;
use tuwunel::collections::clone_texts;
use tuwunel::collections::IdMap;
use tuwunel::collections::IdSet;
use tuwunel::collections::StateMap;
use tuwunel::text::chars_of;
use tuwunel::text::text_before;

fn set_of(ids: &[&str]) -> IdSet {
    let mut set = IdSet::new();
    for id in ids {
        set.insert((*id).to_owned());
    }
    set
}

#[test]
fn id_set_holds_each_id_once() {
    let mut set = IdSet::new();
    assert!(set.insert("a".to_owned()));
    assert!(set.insert("b".to_owned()));
    assert!(!set.insert("a".to_owned()));
    assert_eq!(set.len(), 2);
    assert!(set.contains("a"));
    assert!(!set.contains("c"));
    assert_eq!(set.ids(), &["a", "b"]);
}

#[test]
fn intersection_holds_what_both_hold() {
    let both = set_of(&["a", "b", "c"]).intersection(&set_of(&["c", "d", "a"]));
    assert_eq!(both.len(), 2);
    assert!(both.contains("a"));
    assert!(both.contains("c"));
    assert!(!both.contains("b"));
    assert!(!both.contains("d"));
    assert_eq!(set_of(&["a"]).intersection(&IdSet::new()).len(), 0);
}

#[test]
fn copy_of_an_id_set_holds_the_same() {
    let set = set_of(&["x", "y"]);
    assert_eq!(set.clone().ids(), set.ids());
}

#[test]
fn id_map_keeps_the_later_value() {
    let mut map: IdMap<u8> = IdMap::new();
    map.insert("a".to_owned(), 1);
    map.insert("b".to_owned(), 2);
    map.insert("a".to_owned(), 3);
    assert_eq!(map.get("a"), Some(&3));
    assert_eq!(map.get("b"), Some(&2));
    assert_eq!(map.get("c"), None);
    let mut more: IdMap<u8> = IdMap::new();
    more.insert("b".to_owned(), 4);
    more.insert("c".to_owned(), 5);
    map.extend(more);
    assert_eq!(map.get("a"), Some(&3));
    assert_eq!(map.get("b"), Some(&4));
    assert_eq!(map.get("c"), Some(&5));
}

#[test]
fn state_map_tells_type_and_key_apart() {
    let mut state = StateMap::new();
    state.insert("m.room.member".to_owned(), "@a:foo".to_owned(), "$1".to_owned());
    state.insert("m.room.member".to_owned(), "@b:foo".to_owned(), "$2".to_owned());
    state.insert("m.room.topic".to_owned(), "@a:foo".to_owned(), "$3".to_owned());
    state.insert("m.room.member".to_owned(), "@a:foo".to_owned(), "$4".to_owned());
    assert_eq!(state.get("m.room.member", "@a:foo"), Some(&"$4".to_owned()));
    assert_eq!(state.get("m.room.member", "@b:foo"), Some(&"$2".to_owned()));
    assert_eq!(state.get("m.room.topic", "@a:foo"), Some(&"$3".to_owned()));
    assert_eq!(state.get("m.room.topic", ""), None);
    assert_eq!(state.entries().len(), 3);
    let mut values = state.values();
    values.sort();
    assert_eq!(values, ["$2", "$3", "$4"]);
}

#[test]
fn texts_are_copied_and_appended() {
    let mut texts = vec!["a".to_owned()];
    let copy = clone_texts(&texts);
    append_texts(&mut texts, &vec!["b".to_owned(), "c".to_owned()]);
    assert_eq!(copy, ["a"]);
    assert_eq!(texts, ["a", "b", "c"]);
}

#[test]
fn texts_are_ordered_by_their_characters() {
    assert!(text_before("", "a"));
    assert!(text_before("a", "ab"));
    assert!(text_before("account_data", "admin"));
    assert!(text_before("rooms::state", "rooms::state_cache"));
    assert!(!text_before("a", "a"));
    assert!(!text_before("b", "a"));
    assert!(text_before("Z", "a"));
    assert_eq!(text_before("a", "\u{e9}"), "a" < "\u{e9}");
}

#[test]
fn characters_of_a_text() {
    assert_eq!(chars_of("a\u{e9}"), ['a', '\u{e9}']);
}
