use assignments::event::Event;
use assignments::trie::Trie;

#[test]
fn test_event() {
    let event1 = Event::new("Pac-12 Championship".into(), 12, 1, 2017);
    let mut event2 = Event::new("Group Project Meeting".into(), 12, 1, 2017);
    assert!(event1.has_conflict(&event2));

    event2.update_event();
    assert_eq!(event2.day, 2);
}

#[test]
fn test_trie() {
    let trie = Trie::new(&vec!["b", "ab"]);
    assert_eq!(trie.contains("ab"), true);
    assert_eq!(trie.contains("ac"), false);
    assert_eq!(trie.contains("a"), false);
    assert_eq!(trie.contains("b"), true);
}

#[test]
fn events_on_different_dates_do_not_conflict() {
    let a = Event::new("a".into(), 3, 14, 2020);
    let b = Event::new("b".into(), 3, 15, 2020);
    let c = Event::new("c".into(), 3, 14, 2021);
    assert!(!a.has_conflict(&b));
    assert!(!b.has_conflict(&a));
    assert!(!a.has_conflict(&c));
    assert!(a.has_conflict(&a));
}

#[test]
fn update_event_moves_one_day_and_keeps_the_rest() {
    let mut e = Event::new("launch".into(), 7, 20, 1969);
    let before = Event::new("launch".into(), 7, 20, 1969);
    e.update_event();
    assert_eq!(e.day, 21);
    assert_eq!(e.month, 7);
    assert_eq!(e.year, 1969);
    assert_eq!(e.name, "launch");
    assert!(!e.has_conflict(&before));
}

#[test]
fn trie_documented_example() {
    let trie = Trie::new(&vec!["a", "cc", "ab"]);
    assert!(trie.contains("a"));
    assert!(trie.contains("cc"));
    assert!(trie.contains("ab"));
    assert!(!trie.contains(""));
    assert!(!trie.contains("c"));
    assert!(!trie.contains("b"));
    assert!(!trie.contains("abc"));
    assert!(!trie.contains("ca"));
}

#[test]
fn trie_with_empty_word_and_prefixes() {
    let trie = Trie::new(&vec!["", "to", "tea", "ted", "ten", "i", "in", "inn", "to"]);
    for w in ["", "to", "tea", "ted", "ten", "i", "in", "inn"] {
        assert!(trie.contains(w), "{}", w);
    }
    for w in ["t", "te", "tex", "inns", "x", "tó"] {
        assert!(!trie.contains(w), "{}", w);
    }
}

#[test]
fn empty_trie_holds_nothing() {
    let trie = Trie::new(&vec![]);
    assert!(!trie.contains(""));
    assert!(!trie.contains("a"));
    assert!(!trie.contains("é"));
}

#[test]
fn trie_documented_shape() {
    let trie = Trie::new(&vec!["a", "cc", "ab"]);
    assert_eq!(
        format!("{:?}", trie),
        "Trie { chr: '\\0', has: false, children: [Trie { chr: 'a', has: true, children: [Trie { chr: 'b', has: true, children: [] }] }, Trie { chr: 'c', has: false, children: [Trie { chr: 'c', has: true, children: [] }] }] }"
    );
}

#[test]
fn tries_of_the_same_words_are_equal() {
    let a = Trie::new(&vec!["a", "cc", "ab"]);
    let b = Trie::new(&vec!["ab", "a", "cc", "a"]);
    let c = Trie::new(&vec!["a", "cc"]);
    assert_eq!(a, b);
    assert_ne!(a, c);
}

#[test]
fn build_labels_the_node_and_ignores_order_and_repeats() {
    let a = Trie::build(&vec!["x", "xy", "z"], 'q');
    let b = Trie::build(&vec!["z", "xy", "x", "z"], 'q');
    assert!(format!("{:?}", a).starts_with("Trie { chr: 'q'"));
    for w in ["x", "xy", "z"] {
        assert!(a.contains(w) && b.contains(w));
    }
    assert!(!a.contains("y") && !b.contains("y"));
}
