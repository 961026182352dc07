use linked_list::{join_texts, LinkedList, Node};

fn list_of(values: &[i32]) -> LinkedList<i32> {
    let mut list = LinkedList::<i32>::new();
    for &v in values {
        list.add(v);
    }
    list
}

fn contents(list: &LinkedList<i32>) -> Vec<i32> {
    let mut out = Vec::new();
    let mut i: i32 = 0;
    while let Some(&v) = list.get(i) {
        out.push(v);
        i += 1;
    }
    out
}

#[test]
fn create_numeric_list() {
    let mut list = LinkedList::<i32>::new();
    list.add(1);
    list.add(2);
    list.add(3);
    println!("Linked List is {}", list.render());
    assert_eq!(3, list.len());
}

#[test]
fn create_string_list() {
    let mut list_str = LinkedList::<String>::new();
    list_str.add("A".to_string());
    list_str.add("B".to_string());
    list_str.add("C".to_string());
    println!("Linked List is {}", list_str.render());
    assert_eq!(3, list_str.len());
}

#[test]
fn test_merge_linked_list_1() {
    let mut list_a = LinkedList::<i32>::new();
    let mut list_b = LinkedList::<i32>::new();
    let vec_a = vec![1, 3, 5, 7];
    let vec_b = vec![2, 4, 6, 8];
    let target_vec = vec![1, 2, 3, 4, 5, 6, 7, 8];

    for &num in &vec_a {
        list_a.add(num);
    }
    for &num in &vec_b {
        list_b.add(num);
    }
    println!("list a {} list b {}", list_a.render(), list_b.render());
    let list_c = LinkedList::merge(list_a, list_b);
    println!("merged List is {}", list_c.render());
    for (i, &expected) in target_vec.iter().enumerate() {
        assert_eq!(Some(&expected), list_c.get(i as i32));
    }
}

#[test]
fn render_numbers_joined_by_comma_space() {
    let list = list_of(&[1, 2, 3]);
    assert_eq!(list.len(), 3);
    assert_eq!(list.render(), "1, 2, 3");
}

#[test]
fn render_empty_and_single() {
    assert_eq!(LinkedList::<i32>::new().render(), "");
    assert_eq!(list_of(&[42]).render(), "42");
    let mut words = LinkedList::<String>::new();
    words.add("A".to_string());
    words.add("B".to_string());
    assert_eq!(words.render(), "A, B");
}

#[test]
fn join_texts_separates_parts() {
    assert_eq!(join_texts(&vec![]), "");
    assert_eq!(join_texts(&vec!["x".to_string()]), "x");
    assert_eq!(
        join_texts(&vec!["ab".to_string(), "".to_string(), "c".to_string()]),
        "ab, , c"
    );
}

#[test]
fn add_keeps_append_order() {
    let values = [9, -4, 0, 9, 17];
    let list = list_of(&values);
    assert_eq!(list.len(), 5);
    assert_eq!(contents(&list), values.to_vec());
}

#[test]
fn get_out_of_range_is_none() {
    let empty = LinkedList::<i32>::new();
    assert_eq!(empty.get(0), None);
    assert_eq!(empty.get(-1), None);
    let list = list_of(&[10, 20, 30]);
    assert_eq!(list.get(-1), None);
    assert_eq!(list.get(i32::MIN), None);
    assert_eq!(list.get(3), None);
    assert_eq!(list.get(i32::MAX), None);
    assert_eq!(list.get(0), Some(&10));
    assert_eq!(list.get(2), Some(&30));
}

#[test]
fn default_is_empty() {
    let list: LinkedList<i32> = LinkedList::default();
    assert_eq!(list.len(), 0);
    assert_eq!(list.get(0), None);
}

#[test]
fn node_new_has_no_successor() {
    let node = Node::new(7);
    assert_eq!(node.val, 7);
    assert_eq!(node.next, None);
}

#[test]
fn merge_interleaved() {
    let merged = LinkedList::merge(list_of(&[1, 3, 5, 7]), list_of(&[2, 4, 6, 8]));
    assert_eq!(merged.len(), 8);
    assert_eq!(contents(&merged), vec![1, 2, 3, 4, 5, 6, 7, 8]);
    assert_eq!(merged.render(), "1, 2, 3, 4, 5, 6, 7, 8");
}

#[test]
fn merge_with_duplicates() {
    let merged = LinkedList::merge(list_of(&[1, 1, 2]), list_of(&[1, 3]));
    assert_eq!(contents(&merged), vec![1, 1, 1, 2, 3]);
}

#[derive(Clone, Copy, Debug)]
struct Tagged {
    key: i32,
    from_first: bool,
}

impl PartialEq for Tagged {
    fn eq(&self, other: &Tagged) -> bool {
        self.key == other.key
    }
}

impl PartialOrd for Tagged {
    fn partial_cmp(&self, other: &Tagged) -> Option<std::cmp::Ordering> {
        self.key.partial_cmp(&other.key)
    }
}

fn tagged(keys: &[i32], from_first: bool) -> LinkedList<Tagged> {
    let mut list = LinkedList::new();
    for &key in keys {
        list.add(Tagged { key, from_first });
    }
    list
}

#[test]
fn merge_ties_take_first_list_first() {
    let merged = LinkedList::merge(tagged(&[1, 1, 2], true), tagged(&[1, 3], false));
    let mut seen = Vec::new();
    let mut i: i32 = 0;
    while let Some(t) = merged.get(i) {
        seen.push((t.key, t.from_first));
        i += 1;
    }
    assert_eq!(
        seen,
        vec![(1, true), (1, true), (1, false), (2, true), (3, false)]
    );
}

#[test]
fn merge_with_empty_inputs() {
    let merged = LinkedList::merge(list_of(&[]), list_of(&[5, 6]));
    assert_eq!(contents(&merged), vec![5, 6]);
    let merged = LinkedList::merge(list_of(&[5, 6]), list_of(&[]));
    assert_eq!(contents(&merged), vec![5, 6]);
    let merged = LinkedList::merge(list_of(&[]), list_of(&[]));
    assert_eq!(merged.len(), 0);
    assert_eq!(merged.get(0), None);
}

#[test]
fn merge_one_side_exhausted_first() {
    let merged = LinkedList::merge(list_of(&[-5, 0]), list_of(&[1, 2, 3]));
    assert_eq!(contents(&merged), vec![-5, 0, 1, 2, 3]);
    let merged = LinkedList::merge(list_of(&[4, 9, 10]), list_of(&[-1, 5]));
    assert_eq!(contents(&merged), vec![-1, 4, 5, 9, 10]);
}
