use cluster_metadata::model::Partition;
use cluster_metadata::text::{order_names, NameOrder};
use cluster_metadata::topic_map::TopicMap;

fn list(id: i32) -> Vec<Partition> {
    vec![Partition::new(id, 1, vec![1], vec![1], None)]
}

#[test]
fn names_are_ordered_byte_by_byte() {
    assert_eq!(order_names("a", "b"), NameOrder::Before);
    assert_eq!(order_names("b", "a"), NameOrder::After);
    assert_eq!(order_names("topic", "topic"), NameOrder::Same);
    assert_eq!(order_names("", ""), NameOrder::Same);
    assert_eq!(order_names("", "a"), NameOrder::Before);
    assert_eq!(order_names("a", ""), NameOrder::After);
    assert_eq!(order_names("ab", "abc"), NameOrder::Before);
    assert_eq!(order_names("abd", "abc"), NameOrder::After);
    assert_eq!(order_names("B", "a"), NameOrder::Before);
    assert_eq!(order_names("z", "\u{e9}"), NameOrder::Before);
    assert_eq!(order_names("\u{10000}", "\u{ffff}"), NameOrder::After);
}

#[test]
fn the_name_order_is_that_of_the_strings() {
    let names = ["", "a", "B", "ab", "abc", "b", "z", "\u{e9}", "\u{ffff}", "\u{10000}", "topic-1"];
    for x in names.iter() {
        for y in names.iter() {
            let expected = if x < y {
                NameOrder::Before
            } else if x == y {
                NameOrder::Same
            } else {
                NameOrder::After
            };
            assert_eq!(order_names(x, y), expected);
        }
    }
}

#[test]
fn a_new_map_is_empty() {
    let m = TopicMap::new();
    assert_eq!(m.len(), 0);
    assert!(m.is_empty());
    assert!(m.get("t").is_none());
    assert!(!m.contains_key("t"));
    assert!(m.entry_at(0).is_none());
}

#[test]
fn insert_then_get() {
    let mut m = TopicMap::new();
    assert_eq!(m.insert("t".to_string(), list(0)), None);
    assert_eq!(m.len(), 1);
    assert!(!m.is_empty());
    assert!(m.contains_key("t"));
    assert_eq!(m.get("t"), Some(&list(0)));
    assert_eq!(m.entry_at(0).unwrap().name, "t");
    assert_eq!(m.entry_at(0).unwrap().partitions, list(0));
    assert!(m.entry_at(1).is_none());
}

#[test]
fn insert_replaces_and_hands_back_the_old_list() {
    let mut m = TopicMap::new();
    m.insert("t".to_string(), list(0));
    m.insert("u".to_string(), list(1));
    assert_eq!(m.insert("t".to_string(), list(2)), Some(list(0)));
    assert_eq!(m.len(), 2);
    assert_eq!(m.get("t"), Some(&list(2)));
    assert_eq!(m.get("u"), Some(&list(1)));
}

#[test]
fn topics_are_enumerated_in_the_order_of_their_names() {
    let mut m = TopicMap::new();
    for (i, name) in ["m", "z", "a", "B", "mm", ""].iter().enumerate() {
        m.insert(name.to_string(), list(i as i32));
    }
    let names: Vec<String> = (0..m.len()).map(|i| m.entry_at(i).unwrap().name.clone()).collect();
    assert_eq!(names, vec!["", "B", "a", "m", "mm", "z"]);
    let firsts: Vec<i32> =
        (0..m.len()).map(|i| m.entry_at(i).unwrap().partitions[0].id).collect();
    assert_eq!(firsts, vec![5, 3, 2, 0, 4, 1]);
    assert_eq!(m.clone(), m);
}

#[test]
fn maps_with_the_same_topics_are_equal_whatever_the_order_of_insertion() {
    let mut a = TopicMap::new();
    a.insert("x".to_string(), list(1));
    a.insert("y".to_string(), list(2));
    let mut b = TopicMap::new();
    b.insert("y".to_string(), list(2));
    b.insert("x".to_string(), list(0));
    b.insert("x".to_string(), list(1));
    assert_eq!(a, b);
}
