//! Sorting that keeps the order of what ranks the same.

use vstd::prelude::*;

verus! {

/// Something that is ranked.
pub trait Ranked: Sized {
    /// Whether this ranks before another.
    spec fn ranks_before(self, other: Self) -> bool;

    /// Ranking is a strict order of ranks.
    proof fn lemma_ranks(a: Self, b: Self, c: Self)
        ensures
            a.ranks_before(b) ==> !b.ranks_before(a),
            a.ranks_before(b) ==> a.ranks_before(c) || c.ranks_before(b),
    ;

    /// Whether this ranks before another.
    fn is_before(&self, other: &Self) -> (found: bool)
        ensures
            found == self.ranks_before(*other),
    ;
}

/// Whether two things rank the same.
pub open spec fn same_rank<T: Ranked>(a: T, b: T) -> bool {
    !a.ranks_before(b) && !b.ranks_before(a)
}

/// Those of a list that rank the same as something, in their order.
pub open spec fn peers<T: Ranked>(list: Seq<T>, item: T) -> Seq<T> {
    list.filter(|other: T| same_rank(item, other))
}

/// Whether nothing in a list ranks before something in front of it.
pub open spec fn ranked<T: Ranked>(list: Seq<T>) -> bool {
    forall|i: int, j: int| 0 <= i < j < list.len() ==> !list[j].ranks_before(list[i])
}

/// Whether one list is another one sorted, with those that rank the same in the
/// order in which they were.
pub open spec fn sorted_from<T: Ranked>(list: Seq<T>, sorted: Seq<T>) -> bool {
    &&& ranked(sorted)
    &&& forall|item: T| #[trigger] peers(sorted, item) == peers(list, item)
}

/// What ranks behind or before something has no peers of its peers.
proof fn lemma_no_peers<T: Ranked>(list: Seq<T>, peer: T, item: T)
    requires
        same_rank(peer, item),
        forall|i: int|
            0 <= i < list.len() ==> item.ranks_before(#[trigger] list[i]) || list[i].ranks_before(
                item,
            ),
    ensures
        peers(list, peer) == Seq::<T>::empty(),
    decreases list.len(),
{
    reveal(Seq::filter);
    if list.len() > 0 {
        assert forall|i: int| 0 <= i < list.drop_last().len() implies item.ranks_before(
            #[trigger] list.drop_last()[i],
        ) || list.drop_last()[i].ranks_before(item) by {
            assert(list.drop_last()[i] == list[i]);
        }
        lemma_no_peers(list.drop_last(), peer, item);
        T::lemma_ranks(item, list.last(), peer);
        T::lemma_ranks(list.last(), item, peer);
        assert(list.last() == list[list.len() - 1]);
    }
}

/// The last of two sorted lists may be taken from the end of either, as long as
/// nothing in the other one ranks behind it, or the same and comes behind it.
proof fn lemma_take_last<T: Ranked>(left: Seq<T>, right: Seq<T>, done: Seq<T>, item: T)
    requires
        left.len() > 0 && item == left.last(),
        forall|i: int| 0 <= i < right.len() ==> (#[trigger] right[i]).ranks_before(item),
    ensures
        forall|peer: T| #[trigger]
            peers(left.drop_last() + right + (seq![item] + done), peer) == peers(
                left + right + done,
                peer,
            ),
{
    let less = left.drop_last();
    assert forall|peer: T| #[trigger] peers(less + right + (seq![item] + done), peer) == peers(
        left + right + done,
        peer,
    ) by {
        let same = |other: T| same_rank(peer, other);
        let one = seq![item];
        assert(left =~= less + one);
        Seq::filter_distributes_over_add(less + right, one + done, same);
        Seq::filter_distributes_over_add(less, right, same);
        Seq::filter_distributes_over_add(one, done, same);
        Seq::filter_distributes_over_add(left + right, done, same);
        Seq::filter_distributes_over_add(left, right, same);
        Seq::filter_distributes_over_add(less, one, same);
        if same(item) {
            lemma_no_peers(right, peer, item);
            assert(right.filter(same) == Seq::<T>::empty());
            assert(peers(less + right + (one + done), peer) =~= peers(left + right + done, peer));
        } else {
            reveal(Seq::filter);
            assert(one.drop_last() =~= Seq::empty());
            assert(one.filter(same) =~= Seq::empty());
            assert(peers(less + right + (one + done), peer) =~= peers(left + right + done, peer));
        }
    }
}

/// The reverse of a list.
fn reversed<T>(list: Vec<T>) -> (reverse: Vec<T>)
    ensures
        reverse@ == list@.reverse(),
{
    let ghost all = list@;
    let mut rest = list;
    let mut reverse: Vec<T> = Vec::new();
    proof {
        assert(all.skip(all.len() as int).reverse() =~= Seq::empty());
    }
    loop
        invariant
            rest@.len() <= all.len(),
            rest@ == all.take(rest@.len() as int),
            reverse@ == all.skip(rest@.len() as int).reverse(),
        ensures
            reverse@ == all.reverse(),
        decreases rest@.len(),
    {
        let ghost count = rest@.len() as int;
        match rest.pop() {
            Some(item) => {
                reverse.push(item);
                proof {
                    assert(all.skip(count - 1).reverse() =~= all.skip(count).reverse().push(
                        all[count - 1],
                    ));
                    assert(rest@ =~= all.take(count - 1));
                }
            },
            None => {
                proof {
                    assert(all.skip(0) =~= all);
                }
                break ;
            },
        }
    }
    reverse
}

/// Merges two sorted lists; where two rank the same, the one of the first list
/// comes first.
fn merge<T: Ranked>(left: Vec<T>, right: Vec<T>) -> (merged: Vec<T>)
    requires
        ranked(left@),
        ranked(right@),
    ensures
        sorted_from(left@ + right@, merged@),
{
    let ghost all = left@ + right@;
    let mut left = left;
    let mut right = right;
    let mut back: Vec<T> = Vec::new();
    proof {
        assert(left@ + right@ + back@.reverse() =~= all);
    }
    while left.len() > 0 && right.len() > 0
        invariant
            ranked(left@),
            ranked(right@),
            ranked(back@.reverse()),
            forall|i: int, j: int|
                0 <= i < left@.len() && 0 <= j < back@.len() ==> !(
                #[trigger] back@[j]).ranks_before(#[trigger] left@[i]),
            forall|i: int, j: int|
                0 <= i < right@.len() && 0 <= j < back@.len() ==> !(
                #[trigger] back@[j]).ranks_before(#[trigger] right@[i]),
            forall|peer: T| #[trigger]
                peers(left@ + right@ + back@.reverse(), peer) == peers(all, peer),
        decreases left@.len() + right@.len(),
    {
        let ghost l = left@;
        let ghost r = right@;
        let ghost done = back@.reverse();
        let take_left = right[right.len() - 1].is_before(&left[left.len() - 1]);
        if take_left {
            if let Some(item) = left.pop() {
                proof {
                    assert forall|i: int| 0 <= i < r.len() implies (#[trigger] r[i]).ranks_before(
                        item,
                    ) by {
                        T::lemma_ranks(r.last(), item, r[i]);
                        if i < r.len() - 1 {
                            assert(!r[r.len() - 1].ranks_before(r[i]));
                        }
                    }
                    lemma_take_last(l, r, done, item);
                    assert forall|i: int| 0 <= i < r.len() implies !item.ranks_before(
                        #[trigger] r[i],
                    ) by {
                        T::lemma_ranks(r[i], item, item);
                    }
                }
                back.push(item);
            }
        } else {
            if let Some(item) = right.pop() {
                proof {
                    assert forall|i: int| 0 <= i < l.len() implies !item.ranks_before(
                        #[trigger] l[i],
                    ) by {
                        if item.ranks_before(l[i]) {
                            T::lemma_ranks(item, l[i], l.last());
                            if i < l.len() - 1 {
                                assert(!l[l.len() - 1].ranks_before(l[i]));
                            }
                        }
                    }
                }
                back.push(item);
            }
        }
        proof {
            let item = back@.last();
            assert(back@.reverse() =~= seq![item] + done);
            assert forall|i: int, j: int| 0 <= i < j < back@.len() implies !back@.reverse()[j].ranks_before(
                back@.reverse()[i],
            ) by {
                if i > 0 {
                    assert(back@.reverse()[i] == done[i - 1]);
                }
                assert(back@.reverse()[j] == done[j - 1]);
                assert(done[j - 1] == back@[back@.len() - 1 - j]);
            }
            assert forall|peer: T| #[trigger] peers(left@ + right@ + back@.reverse(), peer)
                == peers(all, peer) by {
                assert(peers(l + r + done, peer) == peers(all, peer));
                if take_left {
                    assert(left@ =~= l.drop_last());
                    assert(peers(l.drop_last() + r + (seq![item] + done), peer) == peers(
                        l + r + done,
                        peer,
                    ));
                } else {
                    assert(left@ + right@ + back@.reverse() =~= l + r + done);
                }
            }
        }
    }
    let ghost l = left@;
    let ghost r = right@;
    let ghost done = back@.reverse();
    let mut back = reversed(back);
    let mut merged = left;
    merged.append(&mut right);
    merged.append(&mut back);
    proof {
        assert(merged@ =~= l + r + done);
        assert forall|i: int, j: int| 0 <= i < j < merged@.len() implies !merged@[j].ranks_before(
            merged@[i],
        ) by {
            let split = (l + r).len();
            if i < split && j >= split {
                assert(merged@[j] == done[j - split]);
                let k = done.len() - 1 - (j - split);
                if l.len() > 0 {
                    assert(merged@[i] == l[i]);
                } else {
                    assert(merged@[i] == r[i]);
                }
            } else if i >= split {
                assert(merged@[i] == done[i - split]);
                assert(merged@[j] == done[j - split]);
            } else if l.len() > 0 {
                assert(merged@[i] == l[i] && merged@[j] == l[j]);
            } else {
                assert(merged@[i] == r[i] && merged@[j] == r[j]);
            }
        }
        assert forall|peer: T| #[trigger] peers(merged@, peer) == peers(all, peer) by {
            assert(peers(l + r + done, peer) == peers(all, peer));
        }
    }
    merged
}

/// Sorts a list; what ranks the same stays in its order.
pub fn sort<T: Ranked>(list: Vec<T>) -> (sorted: Vec<T>)
    ensures
        sorted_from(list@, sorted@),
    decreases list@.len(),
{
    if list.len() < 2 {
        return list;
    }
    let ghost all = list@;
    let mut left = list;
    let middle: usize = left.len() / 2;
    let right = left.split_off(middle);
    let ghost l = left@;
    let ghost r = right@;
    let left = sort(left);
    let right = sort(right);
    let ghost sorted_left = left@;
    let ghost sorted_right = right@;
    let merged = merge(left, right);
    proof {
        assert(all =~= l + r);
        assert forall|peer: T| #[trigger] peers(merged@, peer) == peers(all, peer) by {
            let same = |other: T| same_rank(peer, other);
            Seq::filter_distributes_over_add(l, r, same);
            Seq::filter_distributes_over_add(sorted_left, sorted_right, same);
            assert(peers(sorted_left, peer) == peers(l, peer));
            assert(peers(sorted_right, peer) == peers(r, peer));
            assert(peers(merged@, peer) == peers(sorted_left + sorted_right, peer));
        }
    }
    merged
}

/// Whether a relation orders things by ranks.
pub open spec fn orders<T>(less: spec_fn(T, T) -> bool) -> bool {
    &&& forall|a: T, b: T| #[trigger] less(a, b) ==> !less(b, a)
    &&& forall|a: T, b: T, c: T| #[trigger] less(a, b) ==> #[trigger] less(a, c) || less(c, b)
}

/// Whether one sequence comes before another: at the first place at which they
/// differ in rank, or because it ends there.
pub open spec fn lex<T>(less: spec_fn(T, T) -> bool, left: Seq<T>, right: Seq<T>) -> bool
    decreases left.len(),
{
    if right.len() == 0 {
        false
    } else if left.len() == 0 {
        true
    } else if less(left[0], right[0]) {
        true
    } else if less(right[0], left[0]) {
        false
    } else {
        lex(
            less,
            left.subrange(1, left.len() as int),
            right.subrange(1, right.len() as int),
        )
    }
}

/// Sequences of what is ordered by ranks are ordered by ranks.
pub proof fn lemma_lex_orders<T>(
    less: spec_fn(T, T) -> bool,
    a: Seq<T>,
    b: Seq<T>,
    c: Seq<T>,
)
    requires
        orders(less),
    ensures
        lex(less, a, b) ==> !lex(less, b, a),
        lex(less, a, b) ==> lex(less, a, c) || lex(less, c, b),
    decreases a.len(),
{
    if a.len() > 0 && b.len() > 0 {
        let a1 = a.subrange(1, a.len() as int);
        let b1 = b.subrange(1, b.len() as int);
        if c.len() > 0 {
            let c1 = c.subrange(1, c.len() as int);
            lemma_lex_orders(less, a1, b1, c1);
            let _ = less(a[0], c[0]);
            let _ = less(c[0], b[0]);
            let _ = less(c[0], a[0]);
            let _ = less(b[0], c[0]);
        } else {
            lemma_lex_orders(less, a1, b1, c);
        }
    }
}

}
