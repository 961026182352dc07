use vstd::prelude::*;
use vstd::string::to_string_from_display_ensures;

use crate::render::{join_texts, joined};

verus! {

/// One element and the index of the node that follows it in the arena.
pub struct Node<T> {
    pub val: T,
    pub next: Option<usize>,
}

impl<T> Node<T> {
    /// A node holding `t`, with no successor.
    pub fn new(t: T) -> (r: Node<T>)
        ensures
            r.val == t,
            r.next is None,
    {
        Node { val: t, next: None }
    }
}

/// The element at position `index` of `s`, or `None` where `index` is
/// negative or not below the length.
pub open spec fn lookup<T>(s: Seq<T>, index: int) -> Option<T> {
    if 0 <= index < s.len() {
        Some(s[index])
    } else {
        None
    }
}

/// The elements of a list that starts empty and gets each value of `s`
/// appended by `add`, in order.
pub open spec fn appended<T>(s: Seq<T>) -> Seq<T>
    decreases s.len(),
{
    if s.len() == 0 {
        Seq::empty()
    } else {
        appended(s.drop_last()).push(s.last())
    }
}

/// Appending the values of `s` one by one to an empty list gives a list of
/// `s.len()` elements that holds them in the order they were appended.
pub proof fn lemma_appended_in_order<T>(s: Seq<T>)
    ensures
        appended(s).len() == s.len(),
        forall|i: int| 0 <= i < s.len() ==> #[trigger] appended(s)[i] == s[i],
    decreases s.len(),
{
    if s.len() > 0 {
        lemma_appended_in_order(s.drop_last());
        assert(appended(s) =~= s);
    } else {
        assert(appended(s) =~= s);
    }
}

/// Building a list from `s` by `add` and reading it back by `get` at every
/// position gives `s` again; every other position gives `None`.
pub proof fn lemma_round_trip<T>(s: Seq<T>)
    ensures
        forall|i: int| 0 <= i < s.len() ==> #[trigger] lookup(appended(s), i) == Some(s[i]),
        forall|i: int| !(0 <= i < s.len()) ==> #[trigger] lookup(appended(s), i) is None,
{
    lemma_appended_in_order(s);
}

/// A singly linked list. Its nodes live in an arena and are linked by index:
/// the chain starts at `start`, each node's `next` names its successor, and
/// `end` names the last node, whose `next` is empty.
pub struct LinkedList<T> {
    length: u32,
    start: Option<usize>,
    end: Option<usize>,
    nodes: Vec<Node<T>>,
}

impl<T> View for LinkedList<T> {
    type V = Seq<T>;

    /// The elements from head to tail.
    closed spec fn view(&self) -> Seq<T> {
        self.nodes@.map_values(|n: Node<T>| n.val)
    }
}

impl<T> LinkedList<T> {
    /// The chain is well formed: the arena holds exactly `length` nodes,
    /// the head is node 0, each node links to the one after it, and the
    /// tail is the last node, with no successor.
    pub closed spec fn wf(&self) -> bool {
        &&& self.nodes@.len() == self.length as nat
        &&& self.start == (if self.length == 0 { None } else { Some(0usize) })
        &&& self.end == (if self.length == 0 { None } else { Some((self.length - 1) as usize) })
        &&& forall|i: int|
            0 <= i < self.nodes@.len() ==> (#[trigger] self.nodes@[i]).next == (if i + 1
                < self.nodes@.len() {
                Some((i + 1) as usize)
            } else {
                None
            })
    }

    /// An empty list.
    pub fn new() -> (r: Self)
        ensures
            r.wf(),
            r@ == Seq::<T>::empty(),
    {
        LinkedList { length: 0, start: None, end: None, nodes: Vec::new() }
    }

    /// The number of elements.
    pub fn len(&self) -> (r: u32)
        requires
            self.wf(),
        ensures
            r as nat == self@.len(),
    {
        self.length
    }

    /// Appends `obj` as the new tail.
    pub fn add(&mut self, obj: T)
        requires
            old(self).wf(),
            old(self)@.len() < u32::MAX,
        ensures
            final(self).wf(),
            final(self)@ == old(self)@.push(obj),
    {
        let idx = self.nodes.len();
        let node = Node::new(obj);
        self.nodes.push(node);
        match self.end {
            None => {
                self.start = Some(idx);
            },
            Some(e) => {
                self.nodes[e].next = Some(idx);
            },
        }
        self.end = Some(idx);
        self.length = self.length + 1;
        assert(self@ =~= old(self)@.push(obj));
    }

    /// The element at position `index`, or `None` where `index` is negative
    /// or not below the length.
    pub fn get(&self, index: i32) -> (r: Option<&T>)
        requires
            self.wf(),
        ensures
            match r {
                Some(v) => lookup(self@, index as int) == Some(*v),
                None => lookup(self@, index as int) is None,
            },
    {
        self.get_ith_node(self.start, index)
    }

    /// Walks `index` links from `node` and returns the value found there,
    /// or `None` where the chain ends first or `index` is negative.
    fn get_ith_node(&self, node: Option<usize>, index: i32) -> (r: Option<&T>)
        requires
            self.wf(),
            node matches Some(k) ==> k < self@.len(),
        ensures
            r == (match node {
                Some(k) => if 0 <= index && k + index < self@.len() {
                    Some(&self@[k + index])
                } else {
                    None
                },
                None => None,
            }),
    {
        if index < 0 {
            return None;
        }
        let ghost first: int = match node {
            Some(k) => k as int,
            None => self@.len() as int,
        };
        let mut current = node;
        let mut remaining: i32 = index;
        while current.is_some()
            invariant
                self.wf(),
                0 <= remaining <= index,
                current matches Some(k) ==> k == first + (index - remaining) && k < self@.len(),
                current is None ==> first + (index - remaining) >= self@.len(),
                node is None ==> first == self@.len(),
                node matches Some(k) ==> first == k,
            decreases remaining,
        {
            let k = current.unwrap();
            if remaining == 0 {
                return Some(&self.nodes[k].val);
            }
            current = self.nodes[k].next;
            remaining = remaining - 1;
        }
        None
    }
}

impl<T: Copy> LinkedList<T> {
    /// Copies the values out by following the links from the head.
    pub(crate) fn collect_values(&self) -> (r: Vec<T>)
        requires
            self.wf(),
        ensures
            r@ == self@,
    {
        let mut values: Vec<T> = Vec::new();
        let mut current = self.start;
        while current.is_some()
            invariant
                self.wf(),
                values@.len() <= self@.len(),
                values@ == self@.take(values@.len() as int),
                current == (if values@.len() < self@.len() {
                    Some(values@.len() as usize)
                } else {
                    None
                }),
            decreases self@.len() - values@.len(),
        {
            let k = current.unwrap();
            values.push(self.nodes[k].val);
            current = self.nodes[k].next;
            assert(values@ =~= self@.take(values@.len() as int));
        }
        assert(values@ =~= self@);
        values
    }
}

impl<T: core::fmt::Display> LinkedList<T> {
    /// The elements from head to tail, each as `to_string` writes it, with
    /// `", "` between each two; an empty list gives the empty text.
    pub fn render(&self) -> (r: String)
        requires
            self.wf(),
        ensures
            exists|texts: Seq<String>|
                {
                    &&& texts.len() == self@.len()
                    &&& forall|i: int|
                        0 <= i < texts.len() ==> to_string_from_display_ensures(
                            &self@[i],
                            #[trigger] texts[i],
                        )
                    &&& r@ == joined(texts.map_values(|t: String| t@))
                },
    {
        let mut texts: Vec<String> = Vec::new();
        let mut current = self.start;
        while current.is_some()
            invariant
                self.wf(),
                texts@.len() <= self@.len(),
                forall|i: int|
                    0 <= i < texts@.len() ==> to_string_from_display_ensures(
                        &self@[i],
                        #[trigger] texts@[i],
                    ),
                current == (if texts@.len() < self@.len() {
                    Some(texts@.len() as usize)
                } else {
                    None
                }),
            decreases self@.len() - texts@.len(),
        {
            let k = current.unwrap();
            texts.push(self.nodes[k].val.to_string());
            current = self.nodes[k].next;
        }
        join_texts(&texts)
    }
}

impl<T> Default for LinkedList<T> {
    /// The empty list, as `new` makes it.
    fn default() -> (r: Self)
        ensures
            r.wf(),
            r@ == Seq::<T>::empty(),
    {
        Self::new()
    }
}

} // verus!
