//! A prefix tree over characters: a vocabulary of words that answers, for a
//! prefix, with every stored word that begins with it.
//!
//! The nodes live in one arena and refer to each other by index. Node `0` is
//! the root and stands for the empty prefix.

use crate::strings::texts;
use std::collections::HashMap;
use vstd::prelude::*;
use vstd::std_specs::hash::spec_hash_map_iter;
use vstd::std_specs::iter::IteratorSpec;

verus! {

broadcast use vstd::std_specs::hash::group_hash_axioms;

struct PrefixTreeNode {
    /// The character that leads from the parent to this node.
    label: char,
    /// The children, keyed by the scalar value of their label.
    children: HashMap<u32, usize>,
    is_full_word: bool,
    /// The characters read on the way from the root to this node.
    path: Ghost<Seq<char>>,
    /// The index of the node that holds this one among its children.
    parent: Ghost<int>,
}

pub struct PrefixTree {
    nodes: Vec<PrefixTreeNode>,
}

/// The words of `words` that begin with `prefix`.
pub open spec fn completions_of(words: Set<Seq<char>>, prefix: Seq<char>) -> Set<Seq<char>> {
    words.filter(|w: Seq<char>| prefix.is_prefix_of(w))
}

/// The scalar value of a character, by which a node's children are keyed.
fn scalar_value(c: char) -> (key: u32)
    ensures
        key == c as u32,
        key as char == c,
{
    c as u32
}

/// A stored word is listed once among the completions of each of its
/// prefixes, where `listed` is a sequence without repetition that holds the
/// completions of `prefix` among `stored`.
pub proof fn lemma_listed_once(
    stored: Set<Seq<char>>,
    prefix: Seq<char>,
    word: Seq<char>,
    listed: Seq<Seq<char>>,
)
    requires
        stored.contains(word),
        prefix.is_prefix_of(word),
        listed.no_duplicates(),
        listed.to_set() == completions_of(stored, prefix),
    ensures
        listed.to_multiset().count(word) == 1,
{
    assert(completions_of(stored, prefix).contains(word));
    assert(listed.contains(word));
    listed.to_multiset_ensures();
    listed.lemma_multiset_has_no_duplicates();
}

/// The completions of the empty prefix are all stored words.
pub proof fn lemma_all_words(stored: Set<Seq<char>>)
    ensures
        completions_of(stored, Seq::empty()) == stored,
{
    assert forall|w: Seq<char>| stored.contains(w) implies completions_of(
        stored,
        Seq::empty(),
    ).contains(w) by {
        assert(Seq::<char>::empty().is_prefix_of(w));
    }
    assert(completions_of(stored, Seq::empty()) =~= stored);
}

/// The order in which two words are added does not matter.
pub proof fn lemma_insertion_order(stored: Set<Seq<char>>, first: Seq<char>, second: Seq<char>)
    ensures
        stored.insert(first).insert(second) == stored.insert(second).insert(first),
{
    assert(stored.insert(first).insert(second) =~= stored.insert(second).insert(first));
}

/// Adding a word that is stored changes nothing.
pub proof fn lemma_insert_again(stored: Set<Seq<char>>, word: Seq<char>)
    requires
        stored.contains(word),
    ensures
        stored.insert(word) == stored,
{
    assert(stored.insert(word) =~= stored);
}

impl PrefixTree {
    spec fn path(&self, i: int) -> Seq<char> {
        self.nodes[i].path@
    }

    spec fn has_child(&self, i: int, key: u32) -> bool {
        self.nodes[i].children@.contains_key(key)
    }

    spec fn child(&self, i: int, key: u32) -> int {
        self.nodes[i].children@[key] as int
    }

    spec fn stored_at(&self, i: int) -> bool {
        0 <= i < self.nodes.len() && self.nodes[i].is_full_word
    }

    /// Some stored word begins with the path of node `j`.
    spec fn leads_to_word(&self, j: int) -> bool {
        exists|i: int| self.stored_at(i) && self.path(j).is_prefix_of(#[trigger] self.path(i))
    }

    /// The arena is a tree, and every node but the root lies on the way to a
    /// stored word.
    pub closed spec fn wf(&self) -> bool {
        &&& self.is_tree()
        &&& forall|j: int| 0 < j < self.nodes.len() ==> #[trigger] self.leads_to_word(j)
    }

    /// The arena is a tree rooted at node `0`: the paths of two nodes differ,
    /// every child entry leads to a node whose path is the parent's path with
    /// the child's label appended, and every node but the root is such a child.
    spec fn is_tree(&self) -> bool {
        &&& self.nodes.len() >= 1
        &&& self.path(0).len() == 0
        &&& forall|i: int, j: int|
            #![trigger self.path(i), self.path(j)]
            0 <= i < j < self.nodes.len() ==> self.path(i) != self.path(j)
        &&& forall|i: int, key: u32|
            #![trigger self.has_child(i, key)]
            0 <= i < self.nodes.len() && self.has_child(i, key) ==> {
                let j = self.child(i, key);
                &&& 0 < j < self.nodes.len()
                &&& self.nodes[j].label as u32 == key
                &&& key as char == self.nodes[j].label
                &&& self.nodes[j].parent@ == i
                &&& self.path(j) == self.path(i).push(self.nodes[j].label)
            }
        &&& forall|j: int|
            #![trigger self.nodes[j].parent]
            0 < j < self.nodes.len() ==> {
                let i = self.nodes[j].parent@;
                &&& 0 <= i < self.nodes.len()
                &&& self.has_child(i, self.nodes[j].label as u32)
                &&& self.child(i, self.nodes[j].label as u32) == j
            }
    }

    /// The stored words: the paths of the nodes that are marked as the end of
    /// a word.
    pub closed spec fn view(&self) -> Set<Seq<char>> {
        Set::new(|w: Seq<char>| exists|i: int| self.stored_at(i) && #[trigger] self.path(i) == w)
    }

    /// A node has a child for a character exactly if some node's path is this
    /// node's path with that character appended, and the child is that node.
    proof fn lemma_child_by_path(&self, i: int, c: char, j: int)
        requires
            self.is_tree(),
            0 <= i < self.nodes.len(),
            0 <= j < self.nodes.len(),
            self.path(j) == self.path(i).push(c),
        ensures
            self.has_child(i, c as u32),
            self.child(i, c as u32) == j,
    {
        assert(self.path(j).len() > 0);
        assert(j != 0);
        let p = self.nodes[j].parent@;
        let l = self.nodes[j].label;
        assert(self.has_child(p, l as u32));
        assert(self.path(j) == self.path(p).push(l));
        assert(self.path(p) =~= self.path(j).drop_last());
        assert(self.path(i) =~= self.path(j).drop_last());
        assert(l == self.path(j).last());
        assert(c == self.path(j).last());
        if p < i {
            assert(self.path(p) != self.path(i));
        } else if i < p {
            assert(self.path(i) != self.path(p));
        }
    }

    /// Every prefix of a node's path is the path of a node.
    proof fn lemma_prefix_has_node(&self, j: int, len: int) -> (i: int)
        requires
            self.is_tree(),
            0 <= j < self.nodes.len(),
            0 <= len <= self.path(j).len(),
        ensures
            0 <= i < self.nodes.len(),
            self.path(i) == self.path(j).take(len),
        decreases self.path(j).len(),
    {
        if len == self.path(j).len() {
            assert(self.path(j).take(len) =~= self.path(j));
            j
        } else {
            assert(j != 0);
            let p = self.nodes[j].parent@;
            assert(self.has_child(p, self.nodes[j].label as u32));
            assert(self.path(j) == self.path(p).push(self.nodes[j].label));
            let i = self.lemma_prefix_has_node(p, len);
            assert(self.path(p).take(len) =~= self.path(j).take(len));
            i
        }
    }

    /// An empty vocabulary.
    pub fn new() -> (tree: Self)
        ensures
            tree.wf(),
            tree@ == Set::<Seq<char>>::empty(),
    {
        let root = PrefixTreeNode {
            label: '\0',
            children: HashMap::new(),
            is_full_word: false,
            path: Ghost(Seq::empty()),
            parent: Ghost(0),
        };
        let mut nodes: Vec<PrefixTreeNode> = Vec::new();
        nodes.push(root);
        let tree = PrefixTree { nodes };
        assert(tree@ =~= Set::<Seq<char>>::empty());
        tree
    }

    /// Stores `word`. The vocabulary is a set: a word that is already stored
    /// stays stored once.
    pub fn add_word(&mut self, word: &str)
        requires
            old(self).wf(),
        ensures
            final(self).wf(),
            final(self)@ == old(self)@.insert(word@),
    {
        let mut current: usize = 0;
        let chars = word.chars();
        for character in it: chars
            invariant
                it.seq() == word@,
                self.is_tree(),
                forall|j: int|
                    0 < j < self.nodes.len() ==> #[trigger] self.leads_to_word(j)
                        || self.path(j).is_prefix_of(word@),
                self@ == old(self)@,
                current < self.nodes.len(),
                self.path(current as int) == word@.take(it.index()),
        {
            let key: u32 = scalar_value(character);
            let next: Option<usize> = match self.nodes[current].children.get(&key) {
                Some(j) => Some(*j),
                None => None,
            };
            proof {
                assert(word@.take(it.index() + 1) =~= word@.take(it.index()).push(character));
            }
            match next {
                Some(j) => {
                    assert(self.has_child(current as int, key));
                    current = j;
                },
                None => {
                    let ghost before = *self;
                    let fresh: usize = self.nodes.len();
                    let ghost path = self.path(current as int).push(character);
                    self.nodes.push(
                        PrefixTreeNode {
                            label: character,
                            children: HashMap::new(),
                            is_full_word: false,
                            path: Ghost(path),
                            parent: Ghost(current as int),
                        },
                    );
                    self.nodes[current].children.insert(key, fresh);
                    proof {
                        before.lemma_extended(*self, current as int, character);
                        assert(self.path(fresh as int) =~= word@.take(it.index() + 1));
                        assert forall|j: int| 0 < j < self.nodes.len() implies #[trigger] self.leads_to_word(
                            j,
                        ) || self.path(j).is_prefix_of(word@) by {
                            if j < fresh {
                                assert(self.path(j) == before.path(j));
                                assert(before.leads_to_word(j) || before.path(j).is_prefix_of(
                                    word@,
                                ));
                            }
                        }
                    }
                    current = fresh;
                },
            }
        }
        let ghost before = *self;
        self.nodes[current].is_full_word = true;
        proof {
            assert(word@.take(word@.len() as int) =~= word@);
            before.lemma_marked(*self, current as int);
            assert forall|j: int| 0 < j < self.nodes.len() implies #[trigger] self.leads_to_word(
                j,
            ) by {
                assert(before.leads_to_word(j) || before.path(j).is_prefix_of(word@));
            }
        }
    }

    /// Whether no word is stored.
    pub fn is_empty(&self) -> (empty: bool)
        requires
            self.wf(),
        ensures
            empty == (self@ == Set::<Seq<char>>::empty()),
    {
        let empty = self.nodes.len() == 1 && !self.nodes[0].is_full_word;
        proof {
            if empty {
                assert(self@ =~= Set::<Seq<char>>::empty());
            } else if self.nodes[0].is_full_word {
                assert(self.stored_at(0));
                assert(self@.contains(self.path(0)));
            } else {
                assert(self.leads_to_word(1));
                let i = choose|i: int|
                    self.stored_at(i) && self.path(1).is_prefix_of(#[trigger] self.path(i));
                assert(self@.contains(self.path(i)));
            }
        }
        empty
    }

    /// What the last step of `add_word` does: the node `at` is marked as the
    /// end of a word. The tree stays a tree and stores one word more, the
    /// path of `at`.
    proof fn lemma_marked(&self, after: Self, at: int)
        requires
            self.is_tree(),
            0 <= at < self.nodes.len(),
            after.nodes.len() == self.nodes.len(),
            forall|i: int|
                0 <= i < self.nodes.len() && i != at ==> after.nodes[i] == #[trigger] self.nodes[i],
            after.nodes[at].label == self.nodes[at].label,
            after.nodes[at].children == self.nodes[at].children,
            after.nodes[at].path == self.nodes[at].path,
            after.nodes[at].parent == self.nodes[at].parent,
            after.nodes[at].is_full_word,
        ensures
            after.is_tree(),
            after@ == self@.insert(self.path(at)),
            forall|j: int|
                0 <= j < self.nodes.len() && (self.leads_to_word(j) || self.path(j).is_prefix_of(
                    self.path(at),
                )) ==> #[trigger] after.leads_to_word(j),
    {
        assert forall|j: int|
            0 <= j < self.nodes.len() && (self.leads_to_word(j) || self.path(j).is_prefix_of(
                self.path(at),
            )) implies #[trigger] after.leads_to_word(j) by {
            if self.leads_to_word(j) {
                let i = choose|i: int|
                    self.stored_at(i) && self.path(j).is_prefix_of(#[trigger] self.path(i));
                assert(after.stored_at(i) && after.path(j).is_prefix_of(after.path(i)));
            } else {
                assert(after.stored_at(at) && after.path(j).is_prefix_of(after.path(at)));
            }
        }
        assert forall|i: int| 0 <= i < self.nodes.len() implies after.path(i) == self.path(i) by {}
        assert forall|i: int, j: int| 0 <= i < j < after.nodes.len() implies after.path(i)
            != after.path(j) by {
            assert(self.path(i) != self.path(j));
        }
        assert forall|i: int, key: u32|
            0 <= i < after.nodes.len() && after.has_child(i, key) implies ({
            let j = after.child(i, key);
            &&& 0 < j < after.nodes.len()
            &&& after.nodes[j].label as u32 == key
            &&& key as char == after.nodes[j].label
            &&& after.nodes[j].parent@ == i
            &&& after.path(j) == after.path(i).push(after.nodes[j].label)
        }) by {
            assert(self.has_child(i, key));
        }
        assert forall|j: int| 0 < j < after.nodes.len() implies ({
            let i = (#[trigger] after.nodes[j].parent)@;
            &&& 0 <= i < after.nodes.len()
            &&& after.has_child(i, after.nodes[j].label as u32)
            &&& after.child(i, after.nodes[j].label as u32) == j
        }) by {
            let i = self.nodes[j].parent@;
            assert(self.has_child(i, self.nodes[j].label as u32));
        }
        assert(after@ =~= self@.insert(self.path(at))) by {
            assert forall|w: Seq<char>| self@.insert(self.path(at)).contains(w) implies after@.contains(
                w,
            ) by {
                if w == self.path(at) {
                    assert(after.stored_at(at) && after.path(at) == w);
                } else {
                    let i = choose|i: int| self.stored_at(i) && self.path(i) == w;
                    assert(after.stored_at(i) && after.path(i) == w);
                }
            }
            assert forall|w: Seq<char>| after@.contains(w) implies self@.insert(
                self.path(at),
            ).contains(w) by {
                let i = choose|i: int| after.stored_at(i) && after.path(i) == w;
                if i != at {
                    assert(self.stored_at(i) && self.path(i) == w);
                }
            }
        }
    }

    /// What one step of `add_word` does when the character has no node yet:
    /// a node is appended for it and entered among the children of `at`. The
    /// tree stays a tree and stores what it stored.
    proof fn lemma_extended(&self, after: Self, at: int, c: char)
        requires
            self.is_tree(),
            0 <= at < self.nodes.len(),
            !self.has_child(at, c as u32),
            after.nodes.len() == self.nodes.len() + 1,
            forall|i: int|
                0 <= i < self.nodes.len() && i != at ==> after.nodes[i] == #[trigger] self.nodes[i],
            after.nodes[at].label == self.nodes[at].label,
            after.nodes[at].is_full_word == self.nodes[at].is_full_word,
            after.nodes[at].path == self.nodes[at].path,
            after.nodes[at].parent == self.nodes[at].parent,
            after.nodes[at].children@ == self.nodes[at].children@.insert(
                c as u32,
                self.nodes.len() as usize,
            ),
            after.nodes[self.nodes.len() as int].label == c,
            c as u32 as char == c,
            after.nodes[self.nodes.len() as int].children@ == Map::<u32, usize>::empty(),
            !after.nodes[self.nodes.len() as int].is_full_word,
            after.nodes[self.nodes.len() as int].path@ == self.path(at).push(c),
            after.nodes[self.nodes.len() as int].parent@ == at,
        ensures
            after.is_tree(),
            after@ == self@,
            forall|j: int|
                0 <= j < self.nodes.len() && self.leads_to_word(j) ==> #[trigger] after.leads_to_word(
                    j,
                ),
    {
        assert forall|j: int|
            0 <= j < self.nodes.len() && self.leads_to_word(j) implies #[trigger] after.leads_to_word(
            j,
        ) by {
            let i = choose|i: int|
                self.stored_at(i) && self.path(j).is_prefix_of(#[trigger] self.path(i));
            assert(after.stored_at(i) && after.path(j).is_prefix_of(after.path(i)));
        }
        let n = self.nodes.len() as int;
        assert forall|i: int| 0 <= i < n implies after.path(i) == self.path(i) by {}
        assert forall|i: int| 0 <= i < n implies after.path(i) != after.path(n) by {
            if self.path(i) == self.path(at).push(c) {
                self.lemma_child_by_path(at, c, i);
            }
        }
        assert forall|i: int, j: int| 0 <= i < j < after.nodes.len() implies after.path(i)
            != after.path(j) by {
            if j < n {
                assert(self.path(i) != self.path(j));
            }
        }
        assert forall|i: int, key: u32|
            0 <= i < after.nodes.len() && after.has_child(i, key) implies ({
            let j = after.child(i, key);
            &&& 0 < j < after.nodes.len()
            &&& after.nodes[j].label as u32 == key
            &&& key as char == after.nodes[j].label
            &&& after.nodes[j].parent@ == i
            &&& after.path(j) == after.path(i).push(after.nodes[j].label)
        }) by {
            if i == at && key == c as u32 {
            } else if i < n {
                assert(self.has_child(i, key));
            }
        }
        assert forall|j: int| 0 < j < after.nodes.len() implies ({
            let i = (#[trigger] after.nodes[j].parent)@;
            &&& 0 <= i < after.nodes.len()
            &&& after.has_child(i, after.nodes[j].label as u32)
            &&& after.child(i, after.nodes[j].label as u32) == j
        }) by {
            if j < n {
                let i = self.nodes[j].parent@;
                assert(self.has_child(i, self.nodes[j].label as u32));
            }
        }
        assert(after@ =~= self@) by {
            assert forall|w: Seq<char>| self@.contains(w) implies after@.contains(w) by {
                let i = choose|i: int| self.stored_at(i) && self.path(i) == w;
                assert(after.stored_at(i) && after.path(i) == w);
            }
            assert forall|w: Seq<char>| after@.contains(w) implies self@.contains(w) by {
                let i = choose|i: int| after.stored_at(i) && after.path(i) == w;
                assert(self.stored_at(i) && self.path(i) == w);
            }
        }
    }

    /// Only finitely many words are stored.
    pub proof fn lemma_view_finite(&self)
        ensures
            self@.finite(),
    {
        let range = vstd::set_lib::set_int_range(0, self.nodes.len() as int);
        let paths = range.map(|i: int| self.path(i));
        vstd::set_lib::lemma_int_range(0, self.nodes.len() as int);
        range.lemma_map_finite(|i: int| self.path(i));
        assert forall|w: Seq<char>| self@.contains(w) implies paths.contains(w) by {
            let i = choose|i: int| self.stored_at(i) && self.path(i) == w;
            assert(range.contains(i));
        }
        vstd::set_lib::lemma_len_subset(self@, paths);
    }

    /// Whether `word` is stored.
    pub fn contains(&self, word: &str) -> (stored: bool)
        requires
            self.wf(),
        ensures
            stored == self@.contains(word@),
    {
        let mut current: usize = 0;
        let chars = word.chars();
        for character in it: chars
            invariant
                it.seq() == word@,
                self.wf(),
                current < self.nodes.len(),
                self.path(current as int) == word@.take(it.index()),
        {
            let key: u32 = scalar_value(character);
            proof {
                assert(word@.take(it.index() + 1) =~= word@.take(it.index()).push(character));
            }
            match self.nodes[current].children.get(&key) {
                Some(next) => {
                    assert(self.has_child(current as int, key));
                    current = *next;
                },
                None => {
                    proof {
                        if self@.contains(word@) {
                            let i = choose|i: int| self.stored_at(i) && self.path(i) == word@;
                            let j = self.lemma_prefix_has_node(i, it.index() + 1);
                            self.lemma_child_by_path(current as int, character, j);
                        }
                    }
                    return false;
                },
            }
        }
        proof {
            assert(word@.take(word@.len() as int) =~= word@);
            if self@.contains(word@) {
                let i = choose|i: int| self.stored_at(i) && self.path(i) == word@;
                if i < current {
                    assert(self.path(i) != self.path(current as int));
                } else if current < i {
                    assert(self.path(current as int) != self.path(i));
                }
            }
            if self.nodes[current as int].is_full_word {
                assert(self.stored_at(current as int));
            }
        }
        self.nodes[current].is_full_word
    }

    /// The completions of `word`: an iterator over every stored word that
    /// begins with `word`, `word` itself among them if it is stored.
    pub fn get_completions<'a>(&'a self, word: &str) -> (iter: CompletionsIter<'a>)
        requires
            self.wf(),
        ensures
            iter.wf(),
            iter.vocabulary() == self@,
            iter.remaining() == completions_of(self@, word@),
    {
        let mut current: usize = 0;
        let chars = word.chars();
        for character in it: chars
            invariant
                it.seq() == word@,
                self.wf(),
                current < self.nodes.len(),
                self.path(current as int) == word@.take(it.index()),
        {
            let key: u32 = scalar_value(character);
            proof {
                assert(word@.take(it.index() + 1) =~= word@.take(it.index()).push(character));
            }
            match self.nodes[current].children.get(&key) {
                Some(next) => {
                    assert(self.has_child(current as int, key));
                    current = *next;
                },
                None => {
                    let iter = CompletionsIter { tree: self, stack: Vec::new() };
                    proof {
                        let len = it.index() + 1;
                        assert forall|w: Seq<char>| self@.contains(w) implies !word@.is_prefix_of(
                            w,
                        ) by {
                            if word@.is_prefix_of(w) {
                                let i = choose|i: int| self.stored_at(i) && self.path(i) == w;
                                let j = self.lemma_prefix_has_node(i, len);
                                assert(w.take(len) =~= word@.take(len));
                                self.lemma_child_by_path(current as int, character, j);
                            }
                        }
                        assert(iter.remaining() =~= completions_of(self@, word@));
                    }
                    return iter;
                },
            }
        }
        let mut stack: Vec<(usize, String)> = Vec::new();
        stack.push((current, word.to_owned()));
        let iter = CompletionsIter { tree: self, stack };
        proof {
            assert(word@.take(word@.len() as int) =~= word@);
            assert forall|w: Seq<char>| completions_of(self@, word@).contains(w) implies iter.remaining().contains(
                w,
            ) by {
                assert(iter.stack@[0].1@.is_prefix_of(w));
            }
            assert(iter.remaining() =~= completions_of(self@, word@));
        }
        iter
    }
}

/// A walk over the stored words that begin with one prefix. Each call of
/// `next` hands out one of them, and none twice.
pub struct CompletionsIter<'a> {
    tree: &'a PrefixTree,
    /// Nodes still to be visited, each with the path that leads to it.
    stack: Vec<(usize, String)>,
}

/// Each entry names a node together with its path, and no entry's path begins
/// with the path of another.
spec fn entries_wf(tree: &PrefixTree, entries: Seq<(usize, String)>) -> bool {
    &&& forall|a: int|
        0 <= a < entries.len() ==> (#[trigger] entries[a]).0 < tree.nodes.len() && tree.path(
            entries[a].0 as int,
        ) == entries[a].1@
    &&& forall|a: int, b: int|
        0 <= a < entries.len() && 0 <= b < entries.len() && a != b ==> !(#[trigger] entries[a]).1@.is_prefix_of(
            (#[trigger] entries[b]).1@,
        )
}

/// Some entry's path is a prefix of `w`.
spec fn covers(entries: Seq<(usize, String)>, w: Seq<char>) -> bool {
    exists|a: int| 0 <= a < entries.len() && (#[trigger] entries[a]).1@.is_prefix_of(w)
}

spec fn remaining_of(tree: &PrefixTree, entries: Seq<(usize, String)>) -> Set<Seq<char>> {
    Set::new(|w: Seq<char>| tree@.contains(w) && covers(entries, w))
}

/// The nodes at or below an entry.
spec fn pending_of(tree: &PrefixTree, entries: Seq<(usize, String)>) -> Set<int> {
    Set::new(|j: int| 0 <= j < tree.nodes.len() && covers(entries, tree.path(j)))
}

proof fn lemma_prefix_of_push(a: Seq<char>, p: Seq<char>, l: char)
    requires
        a.is_prefix_of(p.push(l)),
    ensures
        a.is_prefix_of(p) || a == p.push(l),
{
    if a.len() <= p.len() {
        assert(a =~= p.subrange(0, a.len() as int));
    } else {
        assert(a =~= p.push(l));
    }
}

proof fn lemma_prefix_transitive(a: Seq<char>, b: Seq<char>, c: Seq<char>)
    requires
        a.is_prefix_of(b),
        b.is_prefix_of(c),
    ensures
        a.is_prefix_of(c),
{
    assert(a =~= c.subrange(0, a.len() as int));
}

proof fn lemma_pending_finite(tree: &PrefixTree, entries: Seq<(usize, String)>)
    ensures
        pending_of(tree, entries).finite(),
{
    vstd::set_lib::lemma_int_range(0, tree.nodes.len() as int);
    let range = vstd::set_lib::set_int_range(0, tree.nodes.len() as int);
    assert(pending_of(tree, entries).subset_of(range));
    vstd::set_lib::lemma_len_subset(pending_of(tree, entries), range);
}

/// One step of the walk: the last entry leaves the stack and an entry for
/// each of its node's children takes its place. What remains to be handed out
/// is what remained before, less the path of the node that left.
proof fn lemma_expand(
    tree: &PrefixTree,
    before: Seq<(usize, String)>,
    after: Seq<(usize, String)>,
)
    requires
        tree.wf(),
        entries_wf(tree, before),
        before.len() > 0,
        after.len() >= before.len() - 1,
        forall|a: int| 0 <= a < before.len() - 1 ==> #[trigger] after[a] == before[a],
        forall|k: int|
            before.len() - 1 <= k < after.len() ==> {
                let e = #[trigger] after[k];
                &&& 0 < e.0 < tree.nodes.len()
                &&& tree.nodes[e.0 as int].parent@ == before.last().0
                &&& e.1@ == tree.path(e.0 as int)
            },
        forall|k: int, m: int|
            before.len() - 1 <= k < m < after.len() ==> (#[trigger] after[k]).0
                != (#[trigger] after[m]).0,
        forall|key: u32| #[trigger]
            tree.has_child(before.last().0 as int, key) ==> exists|k: int|
                before.len() - 1 <= k < after.len() && (#[trigger] after[k]).0 == tree.child(
                    before.last().0 as int,
                    key,
                ),
    ensures
        entries_wf(tree, after),
        remaining_of(tree, after) == remaining_of(tree, before).remove(before.last().1@),
        forall|w: Seq<char>|
            #[trigger] covers(before, w) && w.is_prefix_of(before.last().1@) ==> w
                == before.last().1@,
        pending_of(tree, after).len() < pending_of(tree, before).len(),
{
    let base = before.len() - 1;
    let top = before.last().0 as int;
    let p = before.last().1@;
    assert(before[base] == before.last());
    assert(tree.path(top) == p);
    // The path of a new entry is the path of the node that left, one character longer.
    assert forall|k: int| base <= k < after.len() implies ({
        let j = (#[trigger] after[k]).0 as int;
        after[k].1@ == p.push(tree.nodes[j].label)
    }) by {
        let j = after[k].0 as int;
        assert(tree.nodes[j].parent@ == top);
        assert(tree.has_child(top, tree.nodes[j].label as u32));
    }
    assert forall|a: int, b: int|
        0 <= a < after.len() && 0 <= b < after.len() && a != b implies !(#[trigger] after[a]).1@.is_prefix_of(
        (#[trigger] after[b]).1@,
    ) by {
        let x = after[a].1@;
        let y = after[b].1@;
        if x.is_prefix_of(y) {
            if a < base && b < base {
                assert(before[a].1@.is_prefix_of(before[b].1@));
            } else if a < base {
                let l = tree.nodes[after[b].0 as int].label;
                lemma_prefix_of_push(x, p, l);
                if x.is_prefix_of(p) {
                    assert(before[a].1@.is_prefix_of(before[base].1@));
                } else {
                    assert(p.is_prefix_of(x));
                    assert(before[base].1@.is_prefix_of(before[a].1@));
                }
            } else if b < base {
                assert(p.is_prefix_of(x));
                lemma_prefix_transitive(p, x, y);
                assert(before[base].1@.is_prefix_of(before[b].1@));
            } else {
                assert(x.len() == y.len());
                assert(x =~= y);
                let i = after[a].0 as int;
                let j = after[b].0 as int;
                assert(tree.path(i) == tree.path(j));
                if a < b {
                    assert(after[a].0 != after[b].0);
                } else {
                    assert(after[b].0 != after[a].0);
                }
                if i < j {
                    assert(tree.path(i) != tree.path(j));
                } else {
                    assert(tree.path(j) != tree.path(i));
                }
            }
        }
    }
    assert(entries_wf(tree, after));
    // A word or a node path that the new entries cover was covered before,
    // and is not the path of the node that left.
    assert forall|w: Seq<char>| covers(after, w) implies covers(before, w) && w != p by {
        let a = choose|a: int| 0 <= a < after.len() && (#[trigger] after[a]).1@.is_prefix_of(w);
        if a < base {
            assert(before[a].1@.is_prefix_of(w));
            if w == p {
                assert(before[a].1@.is_prefix_of(before[base].1@));
            }
        } else {
            assert(p.is_prefix_of(after[a].1@));
            lemma_prefix_transitive(p, after[a].1@, w);
            assert(before[base].1@.is_prefix_of(w));
        }
    }
    // A node path that was covered before is still covered, but for the path
    // of the node that left.
    assert forall|j: int|
        0 <= j < tree.nodes.len() && covers(before, #[trigger] tree.path(j)) && tree.path(j)
            != p implies covers(after, tree.path(j)) by {
        let w = tree.path(j);
        let a = choose|a: int| 0 <= a < before.len() && (#[trigger] before[a]).1@.is_prefix_of(w);
        if a < base {
            assert(after[a].1@.is_prefix_of(w));
        } else {
            let len = p.len() as int;
            assert(len < w.len()) by {
                if len == w.len() {
                    assert(w =~= p);
                }
            }
            let c = w[len];
            let i = tree.lemma_prefix_has_node(j, len + 1);
            assert(w.take(len + 1) =~= p.push(c));
            tree.lemma_child_by_path(top, c, i);
            let k = choose|k: int|
                base <= k < after.len() && (#[trigger] after[k]).0 == tree.child(top, c as u32);
            assert(after[k].1@ =~= w.take(len + 1));
            assert(after[k].1@.is_prefix_of(w));
        }
    }
    assert(remaining_of(tree, after) =~= remaining_of(tree, before).remove(p)) by {
        assert forall|w: Seq<char>| remaining_of(tree, before).remove(p).contains(
            w,
        ) implies remaining_of(tree, after).contains(w) by {
            let j = choose|j: int| tree.stored_at(j) && tree.path(j) == w;
            assert(covers(before, tree.path(j)));
        }
    }
    assert(covers(before, tree.path(top))) by {
        assert(before[base].1@.is_prefix_of(tree.path(top)));
    }
    assert forall|w: Seq<char>| #[trigger] covers(before, w) && w.is_prefix_of(p) implies w
        == p by {
        let a = choose|a: int| 0 <= a < before.len() && (#[trigger] before[a]).1@.is_prefix_of(w);
        lemma_prefix_transitive(before[a].1@, w, p);
        if a != base {
            assert(before[a].1@.is_prefix_of(before[base].1@));
        }
        assert(w =~= p);
    }
    let rest = pending_of(tree, before).remove(top);
    assert forall|j: int| pending_of(tree, after).contains(j) implies rest.contains(j) by {
        assert(covers(before, tree.path(j)));
    }
    lemma_pending_finite(tree, before);
    vstd::set_lib::lemma_len_subset(pending_of(tree, after), rest);
}

impl<'a> CompletionsIter<'a> {
    /// The stack is consistent with a tree that is well formed.
    pub closed spec fn wf(&self) -> bool {
        self.tree.wf() && entries_wf(self.tree, self.stack@)
    }

    /// The stored words of the tree that is walked.
    pub closed spec fn vocabulary(&self) -> Set<Seq<char>> {
        self.tree@
    }

    /// The words that the walk has still to hand out.
    pub closed spec fn remaining(&self) -> Set<Seq<char>> {
        remaining_of(self.tree, self.stack@)
    }

    /// Only finitely many words remain.
    pub proof fn lemma_remaining_finite(&self)
        ensures
            self.remaining().finite(),
            self.remaining().subset_of(self.vocabulary()),
    {
        self.tree.lemma_view_finite();
        vstd::set_lib::lemma_len_subset(self.remaining(), self.tree@);
    }

    /// The next completion, or `None` when every one has been handed out. A
    /// word is handed out before the words that begin with it.
    pub fn next(&mut self) -> (word: Option<String>)
        requires
            old(self).wf(),
        ensures
            final(self).wf(),
            final(self).vocabulary() == old(self).vocabulary(),
            match word {
                Some(w) => {
                    &&& old(self).remaining().contains(w@)
                    &&& final(self).remaining() == old(self).remaining().remove(w@)
                    &&& forall|v: Seq<char>|
                        old(self).remaining().contains(v) && v.is_prefix_of(w@) ==> v == w@
                },
                None => {
                    &&& old(self).remaining() == Set::<Seq<char>>::empty()
                    &&& final(self).remaining() == old(self).remaining()
                },
            },
    {
        let tree = self.tree;
        loop
            invariant
                self.wf(),
                self.tree == tree,
                tree == old(self).tree,
                self.remaining() == old(self).remaining(),
            decreases pending_of(self.tree, self.stack@).len(),
        {
            let ghost before = self.stack@;
            match self.stack.pop() {
                None => {
                    assert(self.remaining() =~= Set::<Seq<char>>::empty());
                    return None;
                },
                Some((node, prefix)) => {
                    let ghost base = self.stack@;
                    let father = &tree.nodes[node];
                    let children = father.children.iter();
                    for (key, child) in it: children
                        invariant
                            tree.wf(),
                            self.tree == tree,
                            node < tree.nodes.len(),
                            *father == tree.nodes[node as int],
                            prefix@ == tree.path(node as int),
                            it.seq() == spec_hash_map_iter(&father.children).remaining(),
                            self.stack@.len() == base.len() + it.index(),
                            forall|a: int|
                                0 <= a < base.len() ==> #[trigger] self.stack@[a] == base[a],
                            forall|k: int|
                                base.len() <= k < self.stack@.len() ==> {
                                    let e = #[trigger] self.stack@[k];
                                    &&& 0 < e.0 < tree.nodes.len()
                                    &&& tree.nodes[e.0 as int].parent@ == node
                                    &&& e.1@ == tree.path(e.0 as int)
                                    &&& e.0 == *it.seq()[k - base.len()].1
                                },
                    {
                        assert(it.seq().contains((key, child)));
                        assert(tree.has_child(node as int, *key));
                        let mut new_prefix = prefix.clone();
                        new_prefix.push(tree.nodes[*child].label);
                        self.stack.push((*child, new_prefix));
                    }
                    proof {
                        let items = spec_hash_map_iter(&father.children).remaining();
                        assert(self.stack@.len() == base.len() + items.len());
                        assert forall|k: int, m: int|
                            before.len() - 1 <= k < m < self.stack@.len() implies (
                        #[trigger] self.stack@[k]).0 != (#[trigger] self.stack@[m]).0 by {
                            let a = k - base.len();
                            let b = m - base.len();
                            assert(items[a] != items[b]);
                            let key_a = *items[a].0;
                            let key_b = *items[b].0;
                            assert(father.children@.contains_key(key_a));
                            assert(father.children@.contains_key(key_b));
                            assert(father.children@[key_a] == *items[a].1);
                            assert(father.children@[key_b] == *items[b].1);
                            assert(tree.has_child(node as int, key_a));
                            assert(tree.has_child(node as int, key_b));
                            if self.stack@[k].0 == self.stack@[m].0 {
                                assert(key_a == key_b);
                                assert(items[a].0 == items[b].0);
                                assert(items[a].1 == items[b].1);
                            }
                        }
                        assert forall|key: u32| #[trigger]
                            tree.has_child(node as int, key) implies exists|k: int|
                            before.len() - 1 <= k < self.stack@.len() && (
                            #[trigger] self.stack@[k]).0 == tree.child(node as int, key) by {
                            let pair = (&key, &father.children@[key]);
                            assert(items.contains(pair));
                            let a = choose|a: int| 0 <= a < items.len() && items[a] == pair;
                            let k = base.len() + a;
                            assert(self.stack@[k].0 == tree.child(node as int, key));
                        }
                        lemma_expand(tree, before, self.stack@);
                    }
                    if father.is_full_word {
                        assert forall|v: Seq<char>|
                            old(self).remaining().contains(v) && v.is_prefix_of(
                                prefix@,
                            ) implies v == prefix@ by {
                            assert(covers(before, v));
                        }
                        return Some(prefix);
                    }
                },
            }
        }
    }

    /// Everything that the walk has still to hand out, each word once, and
    /// each before the words that begin with it.
    pub fn collect(self) -> (words: Vec<String>)
        requires
            self.wf(),
        ensures
            texts(words@).no_duplicates(),
            texts(words@).to_set() == self.remaining(),
            forall|i: int, j: int|
                0 <= i < j < words@.len() ==> !(#[trigger] texts(words@)[j]).is_prefix_of(
                    #[trigger] texts(words@)[i],
                ),
    {
        let mut iter = self;
        let mut words: Vec<String> = Vec::new();
        loop
            invariant
                iter.wf(),
                texts(words@).no_duplicates(),
                forall|i: int, j: int|
                    0 <= i < j < words@.len() ==> !(#[trigger] texts(words@)[j]).is_prefix_of(
                        #[trigger] texts(words@)[i],
                    ),
                forall|i: int, v: Seq<char>|
                    #![trigger iter.remaining().contains(v), texts(words@)[i]]
                    0 <= i < words@.len() && iter.remaining().contains(v) ==> !v.is_prefix_of(
                        texts(words@)[i],
                    ),
                forall|w: Seq<char>|
                    texts(words@).contains(w) ==> !iter.remaining().contains(w),
                forall|w: Seq<char>|
                    self.remaining().contains(w) <==> texts(words@).contains(w)
                        || iter.remaining().contains(w),
            decreases iter.remaining().len(),
        {
            proof {
                iter.lemma_remaining_finite();
            }
            let ghost taken = texts(words@);
            match iter.next() {
                None => {
                    assert(texts(words@).to_set() =~= self.remaining());
                    return words;
                },
                Some(word) => {
                    words.push(word);
                    proof {
                        let listed = texts(words@);
                        assert(listed =~= taken.push(word@));
                        assert(listed[taken.len() as int] == word@);
                        assert forall|w: Seq<char>| listed.contains(w) implies taken.contains(w)
                            || w == word@ by {
                            let k = choose|k: int| 0 <= k < listed.len() && listed[k] == w;
                            if k < taken.len() {
                                assert(taken[k] == w);
                            }
                        }
                        assert forall|w: Seq<char>| taken.contains(w) implies listed.contains(
                            w,
                        ) by {
                            let k = choose|k: int| 0 <= k < taken.len() && taken[k] == w;
                            assert(listed[k] == w);
                        }
                    }
                },
            }
        }
    }
}

} // verus!
