//! A set of texts, kept in order.

use vstd::prelude::*;

use crate::text::{
    before, clone_list, comes_before, lemma_before_total, lemma_before_trans, text_eq, texts,
};

verus! {

/// Whether each text comes before every later one.
pub open spec fn increasing(items: Seq<Seq<char>>) -> bool {
    forall|i: int, j: int| 0 <= i < j < items.len() ==> before(items[i], items[j])
}

/// The set of the texts of a list.
pub open spec fn set_of(list: Seq<String>) -> Set<Seq<char>> {
    texts(list).to_set()
}

/// A set of texts. Its elements are handed out in the order of their code
/// points, each of them once.
#[derive(Debug, PartialEq, Eq)]
pub struct StringSet {
    items: Vec<String>,
}

impl View for StringSet {
    type V = Set<Seq<char>>;

    closed spec fn view(&self) -> Set<Seq<char>> {
        set_of(self.items@)
    }
}

/// An increasing list holds no text twice.
pub proof fn lemma_increasing_distinct(items: Seq<Seq<char>>)
    requires
        increasing(items),
    ensures
        items.no_duplicates(),
{
    assert forall|i: int, j: int| 0 <= i < items.len() && 0 <= j < items.len() && i != j implies
        items[i] != items[j] by {
        lemma_before_total(items[i], items[j]);
    }
}

/// Two increasing lists of the same texts are the same list.
pub proof fn lemma_increasing_unique(left: Seq<Seq<char>>, right: Seq<Seq<char>>)
    requires
        increasing(left),
        increasing(right),
        left.to_set() == right.to_set(),
    ensures
        left == right,
    decreases left.len(),
{
    lemma_increasing_distinct(left);
    lemma_increasing_distinct(right);
    left.unique_seq_to_set();
    right.unique_seq_to_set();
    if left.len() > 0 {
        let l = left.last();
        let r = right.last();
        assert(right.to_set().contains(l)) by {
            assert(left.contains(l));
        }
        assert(left.to_set().contains(r)) by {
            assert(right.contains(r));
        }
        let i = choose|i: int| 0 <= i < right.len() && right[i] == l;
        let j = choose|j: int| 0 <= j < left.len() && left[j] == r;
        if l != r {
            assert(before(l, r));
            assert(before(r, l));
            lemma_before_total(l, r);
        }
        let a = left.drop_last();
        let b = right.drop_last();
        assert(a.to_set() =~= left.to_set().remove(l)) by {
            assert forall|x: Seq<char>| a.to_set().contains(x) == left.to_set().remove(
                l,
            ).contains(x) by {
                if a.contains(x) {
                    let k = choose|k: int| 0 <= k < a.len() && a[k] == x;
                    assert(left[k] == x);
                    assert(left.contains(x));
                }
                if left.contains(x) && x != l {
                    let k = choose|k: int| 0 <= k < left.len() && left[k] == x;
                    assert(a[k] == x);
                }
            }
        }
        assert(b.to_set() =~= right.to_set().remove(r)) by {
            assert forall|x: Seq<char>| b.to_set().contains(x) == right.to_set().remove(
                r,
            ).contains(x) by {
                if b.contains(x) {
                    let k = choose|k: int| 0 <= k < b.len() && b[k] == x;
                    assert(right[k] == x);
                    assert(right.contains(x));
                }
                if right.contains(x) && x != r {
                    let k = choose|k: int| 0 <= k < right.len() && right[k] == x;
                    assert(b[k] == x);
                }
            }
        }
        lemma_increasing_unique(a, b);
        assert(left =~= a.push(l));
        assert(right =~= b.push(r));
    }
}

impl StringSet {
    #[verifier::type_invariant]
    spec fn in_order(self) -> bool {
        increasing(texts(self.items@))
    }

    /// The empty set.
    pub fn new() -> (set: StringSet)
        ensures
            set@ == Set::<Seq<char>>::empty(),
    {
        let set = StringSet { items: Vec::new() };
        proof {
            assert(texts(set.items@).to_set() =~= Set::empty());
        }
        set
    }

    /// The set of the texts of a list.
    pub fn from_list(list: &Vec<String>) -> (set: StringSet)
        ensures
            set@ == set_of(list@),
    {
        let mut set = StringSet::new();
        let mut i: usize = 0;
        proof {
            assert(texts(list@).take(0).to_set() =~= Set::empty());
        }
        while i < list.len()
            invariant
                i <= list@.len(),
                set@ == texts(list@).take(i as int).to_set(),
            decreases list@.len() - i,
        {
            proof {
                let all = texts(list@);
                assert(all.take(i + 1) =~= all.take(i as int).push(all[i as int]));
                all.take(i as int).lemma_push_to_set_commute(all[i as int]);
            }
            set.insert(list[i].clone());
            i += 1;
        }
        proof {
            assert(texts(list@).take(list@.len() as int) =~= texts(list@));
        }
        set
    }

    /// Whether a text belongs to the set.
    pub fn contains(&self, text: &str) -> (found: bool)
        ensures
            found == self@.contains(text@),
    {
        crate::text::list_contains(&self.items, text)
    }

    /// Whether the set has no element.
    pub fn is_empty(&self) -> (empty: bool)
        ensures
            empty == (self@ =~= Set::<Seq<char>>::empty()),
            empty == (self@.len() == 0),
    {
        proof {
            self.lemma_len();
            if self.items@.len() > 0 {
                assert(texts(self.items@).contains(texts(self.items@)[0]));
                assert(self@.contains(texts(self.items@)[0]));
            } else {
                assert(self@ =~= Set::empty());
            }
            use_type_invariant(self);
            lemma_increasing_distinct(texts(self.items@));
            texts(self.items@).unique_seq_to_set();
        }
        self.items.len() == 0
    }

    /// A set holds finitely many texts.
    proof fn lemma_len(&self)
        ensures
            self@.finite(),
    {
        vstd::seq_lib::seq_to_set_is_finite(texts(self.items@));
    }

    /// The number of elements.
    pub fn len(&self) -> (count: usize)
        ensures
            count == self@.len(),
            self@.finite(),
    {
        proof {
            use_type_invariant(self);
            lemma_increasing_distinct(texts(self.items@));
            texts(self.items@).unique_seq_to_set();
            self.lemma_len();
        }
        self.items.len()
    }

    /// Puts a text into the set and says whether it is new there.
    pub fn insert(&mut self, text: String) -> (fresh: bool)
        ensures
            final(self)@ == old(self)@.insert(text@),
            fresh == !old(self)@.contains(text@),
    {
        proof {
            use_type_invariant(&*self);
        }
        let ghost old_items = texts(self.items@);
        let mut items: Vec<String> = Vec::new();
        std::mem::swap(&mut items, &mut self.items);
        let mut at: usize = 0;
        while at < items.len() && comes_before(items[at].as_str(), text.as_str())
            invariant
                at <= items@.len(),
                texts(items@) == old_items,
                forall|j: int| 0 <= j < at ==> before(old_items[j], text@),
            decreases items@.len() - at,
        {
            at += 1;
        }
        if at < items.len() && text_eq(items[at].as_str(), text.as_str()) {
            proof {
                assert(old_items[at as int] == text@);
                assert(old_items.contains(text@));
                assert(old_items.to_set().insert(text@) =~= old_items.to_set());
            }
            self.items = items;
            return false;
        }
        proof {
            assert forall|j: int| at <= j < old_items.len() implies before(text@, old_items[j]) by {
                lemma_before_total(old_items[at as int], text@);
                if j > at {
                    lemma_before_trans(text@, old_items[at as int], old_items[j]);
                }
            }
            assert forall|j: int| 0 <= j < old_items.len() implies old_items[j] != text@ by {
                lemma_before_total(old_items[j], text@);
            }
        }
        let ghost value = text@;
        items.insert(at, text);
        proof {
            let new_items = texts(items@);
            assert(new_items =~= old_items.insert(at as int, value));
            assert(increasing(new_items));
            assert(new_items.to_set() =~= old_items.to_set().insert(value)) by {
                assert forall|x: Seq<char>| new_items.to_set().contains(x)
                    == old_items.to_set().insert(value).contains(x) by {
                    if new_items.contains(x) {
                        let k = choose|k: int| 0 <= k < new_items.len() && new_items[k] == x;
                        if k < at {
                            assert(old_items[k] == x);
                        } else if k > at {
                            assert(old_items[k - 1] == x);
                        }
                    }
                    if old_items.contains(x) {
                        let k = choose|k: int| 0 <= k < old_items.len() && old_items[k] == x;
                        if k < at {
                            assert(new_items[k] == x);
                        } else {
                            assert(new_items[k + 1] == x);
                        }
                    }
                    assert(new_items[at as int] == value);
                }
            }
        }
        self.items = items;
        true
    }

    /// Takes a text out of the set.
    pub fn remove(&mut self, text: &str)
        ensures
            final(self)@ == old(self)@.remove(text@),
    {
        proof {
            use_type_invariant(&*self);
        }
        let ghost old_items = texts(self.items@);
        let mut items: Vec<String> = Vec::new();
        std::mem::swap(&mut items, &mut self.items);
        let mut at: usize = 0;
        while at < items.len() && !text_eq(items[at].as_str(), text)
            invariant
                at <= items@.len(),
                texts(items@) == old_items,
                forall|j: int| 0 <= j < at ==> old_items[j] != text@,
            decreases items@.len() - at,
        {
            at += 1;
        }
        if at < items.len() {
            items.remove(at);
            proof {
                let new_items = texts(items@);
                lemma_increasing_distinct(old_items);
                assert(new_items =~= old_items.remove(at as int));
                assert(increasing(new_items));
                assert(new_items.to_set() =~= old_items.to_set().remove(text@)) by {
                    assert forall|x: Seq<char>| new_items.to_set().contains(x)
                        == old_items.to_set().remove(text@).contains(x) by {
                        if new_items.contains(x) {
                            let k = choose|k: int| 0 <= k < new_items.len() && new_items[k] == x;
                            if k < at {
                                assert(old_items[k] == x);
                            } else {
                                assert(old_items[k + 1] == x);
                            }
                            assert(old_items[at as int] == text@);
                        }
                        if old_items.contains(x) && x != text@ {
                            let k = choose|k: int| 0 <= k < old_items.len() && old_items[k] == x;
                            if k < at {
                                assert(new_items[k] == x);
                            } else {
                                assert(new_items[k - 1] == x);
                            }
                        }
                    }
                }
            }
        } else {
            proof {
                assert(old_items.to_set().remove(text@) =~= old_items.to_set());
            }
        }
        self.items = items;
    }

    /// The elements in order.
    pub fn to_list(&self) -> (list: Vec<String>)
        ensures
            set_of(list@) == self@,
            increasing(texts(list@)),
    {
        proof {
            use_type_invariant(self);
        }
        clone_list(&self.items)
    }

    /// Puts every element of another set into this one.
    pub fn extend(&mut self, other: &StringSet)
        ensures
            final(self)@ == old(self)@.union(other@),
    {
        let list = other.to_list();
        let ghost all = texts(list@);
        let mut i: usize = 0;
        proof {
            assert(self@ =~= old(self)@.union(all.take(0).to_set()));
        }
        while i < list.len()
            invariant
                i <= list@.len(),
                all == texts(list@),
                self@ == old(self)@.union(all.take(i as int).to_set()),
            decreases list@.len() - i,
        {
            proof {
                assert(all.take(i + 1) =~= all.take(i as int).push(all[i as int]));
                all.take(i as int).lemma_push_to_set_commute(all[i as int]);
                assert(old(self)@.union(all.take(i + 1).to_set()) =~= self@.insert(all[i as int]));
            }
            self.insert(list[i].clone());
            i += 1;
        }
        proof {
            assert(all.take(list@.len() as int) =~= all);
        }
    }

    /// Whether the two sets have an element in common.
    pub fn meets(&self, other: &StringSet) -> (found: bool)
        ensures
            found == !self@.disjoint(other@),
    {
        let mut i: usize = 0;
        while i < self.items.len()
            invariant
                i <= self.items@.len(),
                forall|j: int| 0 <= j < i ==> !other@.contains(texts(self.items@)[j]),
            decreases self.items@.len() - i,
        {
            if other.contains(self.items[i].as_str()) {
                proof {
                    let x = texts(self.items@)[i as int];
                    assert(texts(self.items@).contains(x));
                    assert(self@.contains(x) && other@.contains(x));
                }
                return true;
            }
            i += 1;
        }
        proof {
            assert forall|x: Seq<char>| self@.contains(x) implies !other@.contains(x) by {
                assert(texts(self.items@).contains(x));
            }
        }
        false
    }
}

impl Clone for StringSet {
    fn clone(&self) -> (copy: StringSet)
        ensures
            copy@ == self@,
    {
        let list = self.to_list();
        StringSet { items: list }
    }
}

impl Default for StringSet {
    fn default() -> (set: StringSet)
        ensures
            set@ == Set::<Seq<char>>::empty(),
    {
        StringSet::new()
    }
}

}
