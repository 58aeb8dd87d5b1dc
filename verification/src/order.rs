//! Putting things in order: a stable sort and a stable merge.

use vstd::prelude::*;

verus! {

/// Things that have a place in an order. Two things may share a place.
pub trait Ranked: Sized {
    /// Whether `self` may stand before `other`.
    spec fn ranks(&self, other: &Self) -> bool;

    /// Of two things at least one may stand first.
    proof fn ranks_total(&self, other: &Self)
        ensures
            self.ranks(other) || other.ranks(self),
    ;

    /// The order is transitive.
    proof fn ranks_transitive(&self, middle: &Self, last: &Self)
        requires
            self.ranks(middle),
            middle.ranks(last),
        ensures
            self.ranks(last),
    ;

    /// Whether `self` may stand before `other`.
    fn may_precede(&self, other: &Self) -> (yes: bool)
        ensures
            yes == self.ranks(other),
    ;
}

/// Whether nothing stands before something that ranks strictly ahead of it.
pub open spec fn in_order<T: Ranked>(items: Seq<T>) -> bool {
    forall|i: int, j: int| #![trigger items[i], items[j]]
        0 <= i < j < items.len() ==> items[i].ranks(&items[j])
}

/// Two sequences merged: whichever of the two fronts may stand first goes
/// first, that of `left` on a tie.
pub open spec fn merged<T: Ranked>(left: Seq<T>, right: Seq<T>) -> Seq<T>
    decreases left.len() + right.len(),
{
    if left.len() == 0 {
        right
    } else if right.len() == 0 {
        left
    } else if left[0].ranks(&right[0]) {
        seq![left[0]] + merged(left.drop_first(), right)
    } else {
        seq![right[0]] + merged(left, right.drop_first())
    }
}

/// A merge keeps everything and adds nothing.
pub proof fn lemma_merged_keeps_all<T: Ranked>(left: Seq<T>, right: Seq<T>)
    ensures
        merged(left, right).to_multiset() == left.to_multiset().add(right.to_multiset()),
        merged(left, right).len() == left.len() + right.len(),
    decreases left.len() + right.len(),
{
    broadcast use vstd::seq_lib::group_to_multiset_ensures;

    if left.len() == 0 {
        assert(left =~= Seq::empty());
        assert(left.to_multiset().add(right.to_multiset()) =~= right.to_multiset());
    } else if right.len() == 0 {
        assert(right =~= Seq::empty());
        assert(left.to_multiset().add(right.to_multiset()) =~= left.to_multiset());
    } else if left[0].ranks(&right[0]) {
        let rest = left.drop_first();
        lemma_merged_keeps_all(rest, right);
        lemma_front_counts(left);
        lemma_front_counts(merged(left, right));
        assert(merged(left, right).drop_first() =~= merged(rest, right));
        assert(rest.to_multiset().add(right.to_multiset()).insert(left[0])
            =~= left.to_multiset().add(right.to_multiset()));
    } else {
        let rest = right.drop_first();
        lemma_merged_keeps_all(left, rest);
        lemma_front_counts(right);
        lemma_front_counts(merged(left, right));
        assert(merged(left, right).drop_first() =~= merged(left, rest));
        assert(left.to_multiset().add(rest.to_multiset()).insert(right[0])
            =~= left.to_multiset().add(right.to_multiset()));
    }
}

/// What a sequence holds is its front and what the rest holds.
proof fn lemma_front_counts<T>(items: Seq<T>)
    requires
        items.len() > 0,
    ensures
        items.to_multiset() == items.drop_first().to_multiset().insert(items[0]),
{
    broadcast use vstd::seq_lib::group_to_multiset_ensures;

    let front = seq![items[0]];
    assert(front + items.drop_first() =~= items);
    vstd::seq_lib::lemma_multiset_commutative(front, items.drop_first());
    assert(front =~= Seq::<T>::empty().push(items[0]));
    assert(items.to_multiset() =~= items.drop_first().to_multiset().insert(items[0]));
}

/// Everything in a merge comes from one of the two sides.
proof fn lemma_merged_comes_from<T: Ranked>(left: Seq<T>, right: Seq<T>, i: int)
    requires
        0 <= i < merged(left, right).len(),
    ensures
        left.contains(merged(left, right)[i]) || right.contains(merged(left, right)[i]),
{
    broadcast use vstd::seq_lib::group_to_multiset_ensures;

    lemma_merged_keeps_all(left, right);
    let item = merged(left, right)[i];
    assert(merged(left, right).contains(item));
    assert(merged(left, right).to_multiset().count(item) > 0);
    assert(left.to_multiset().count(item) > 0 || right.to_multiset().count(item) > 0);
}

/// What follows the front of an ordered sequence is in order.
proof fn lemma_rest_in_order<T: Ranked>(items: Seq<T>)
    requires
        in_order(items),
        items.len() > 0,
    ensures
        in_order(items.drop_first()),
{
    let rest = items.drop_first();
    assert forall|i: int, j: int| #![trigger rest[i], rest[j]]
        0 <= i < j < rest.len() implies rest[i].ranks(&rest[j]) by {
        assert(items[i + 1].ranks(&items[j + 1]));
    }
}

/// Something that may stand before the front of an ordered sequence may stand
/// before all of it.
proof fn lemma_front_bounds<T: Ranked>(first: T, items: Seq<T>, item: T)
    requires
        in_order(items),
        items.len() > 0,
        first.ranks(&items[0]),
        items.contains(item),
    ensures
        first.ranks(&item),
{
    let k = choose|k: int| 0 <= k < items.len() && items[k] == item;
    if k > 0 {
        assert(items[0].ranks(&items[k]));
        first.ranks_transitive(&items[0], &item);
    }
}

/// A merge of two ordered sequences is in order.
pub proof fn lemma_merged_in_order<T: Ranked>(left: Seq<T>, right: Seq<T>)
    requires
        in_order(left),
        in_order(right),
    ensures
        in_order(merged(left, right)),
    decreases left.len() + right.len(),
{
    if left.len() > 0 && right.len() > 0 {
        let take_left = left[0].ranks(&right[0]);
        left[0].ranks_total(&right[0]);
        let first = if take_left {
            left[0]
        } else {
            right[0]
        };
        let left_rest = if take_left {
            left.drop_first()
        } else {
            left
        };
        let right_rest = if take_left {
            right
        } else {
            right.drop_first()
        };
        if take_left {
            lemma_rest_in_order(left);
        } else {
            lemma_rest_in_order(right);
        }
        lemma_merged_in_order(left_rest, right_rest);
        let rest = merged(left_rest, right_rest);
        let all = merged(left, right);
        assert forall|i: int, j: int| #![trigger all[i], all[j]]
            0 <= i < j < all.len() implies all[i].ranks(&all[j]) by {
            if i == 0 {
                let item = rest[j - 1];
                lemma_merged_comes_from(left_rest, right_rest, j - 1);
                first.ranks_total(&first);
                if left_rest.contains(item) {
                    let k = choose|k: int| 0 <= k < left_rest.len() && left_rest[k] == item;
                    assert(left.contains(left[if take_left { k + 1 } else { k }]));
                    lemma_front_bounds(first, left, item);
                } else {
                    let k = choose|k: int| 0 <= k < right_rest.len() && right_rest[k] == item;
                    assert(right.contains(right[if take_left { k } else { k + 1 }]));
                    lemma_front_bounds(first, right, item);
                }
            } else {
                assert(rest[i - 1].ranks(&rest[j - 1]));
            }
        }
    }
}

/// Whether two things share a place.
pub open spec fn tied<T: Ranked>(left: T, right: T) -> bool {
    left.ranks(&right) && right.ranks(&left)
}

/// The items that share the place of `item`, in the order they are in.
pub open spec fn sharing<T: Ranked>(items: Seq<T>, item: T) -> Seq<T>
    decreases items.len(),
{
    if items.len() == 0 {
        Seq::empty()
    } else if tied(items[0], item) {
        seq![items[0]] + sharing(items.drop_first(), item)
    } else {
        sharing(items.drop_first(), item)
    }
}

proof fn lemma_sharing_splits<T: Ranked>(front: Seq<T>, back: Seq<T>, item: T)
    ensures
        sharing(front + back, item) == sharing(front, item) + sharing(back, item),
    decreases front.len(),
{
    if front.len() == 0 {
        assert(front + back =~= back);
        assert(sharing(front, item) + sharing(back, item) =~= sharing(back, item));
    } else {
        lemma_sharing_splits(front.drop_first(), back, item);
        assert((front + back).drop_first() =~= front.drop_first() + back);
        assert(sharing(front + back, item) =~= sharing(front, item) + sharing(back, item));
    }
}

/// Nothing shares a place that lies before the front of an ordered sequence.
proof fn lemma_none_shares<T: Ranked>(items: Seq<T>, item: T)
    requires
        in_order(items),
        items.len() > 0 ==> !items[0].ranks(&item),
    ensures
        sharing(items, item).len() == 0,
    decreases items.len(),
{
    if items.len() > 0 {
        lemma_rest_in_order(items);
        if items.len() > 1 && items[1].ranks(&item) {
            assert(items[0].ranks(&items[1]));
            items[0].ranks_transitive(&items[1], &item);
        }
        lemma_none_shares(items.drop_first(), item);
    }
}

/// A merge is stable: things that share a place keep the order they had, those
/// of `left` first.
pub proof fn lemma_merged_is_stable<T: Ranked>(left: Seq<T>, right: Seq<T>, item: T)
    requires
        in_order(left),
        in_order(right),
    ensures
        sharing(merged(left, right), item) == sharing(left, item) + sharing(right, item),
    decreases left.len() + right.len(),
{
    let both = sharing(left, item) + sharing(right, item);
    if left.len() == 0 {
        assert(both =~= sharing(right, item));
    } else if right.len() == 0 {
        assert(both =~= sharing(left, item));
    } else if left[0].ranks(&right[0]) {
        lemma_rest_in_order(left);
        lemma_merged_is_stable(left.drop_first(), right, item);
        assert(merged(left, right).drop_first() =~= merged(left.drop_first(), right));
        assert(sharing(merged(left, right), item) =~= both);
    } else {
        lemma_rest_in_order(right);
        lemma_merged_is_stable(left, right.drop_first(), item);
        assert(merged(left, right).drop_first() =~= merged(left, right.drop_first()));
        if tied(right[0], item) {
            if left[0].ranks(&item) {
                left[0].ranks_transitive(&item, &right[0]);
            }
            lemma_none_shares(left, item);
            assert(sharing(left, item) =~= Seq::empty());
        }
        assert(sharing(merged(left, right), item) =~= both);
    }
}

/// Turns a vector around.
fn turned<T>(items: Vec<T>) -> (turned: Vec<T>)
    ensures
        turned@ == items@.reverse(),
{
    let ghost all = items@;
    let mut items = items;
    let mut turned: Vec<T> = Vec::new();
    while items.len() > 0
        invariant
            all.reverse() == turned@ + items@.reverse(),
        decreases items.len(),
    {
        let ghost turned_before = turned@;
        let ghost items_before = items@;
        let item = items.pop().unwrap();
        turned.push(item);
        assert(turned@ + items@.reverse() =~= turned_before + items_before.reverse());
    }
    assert(turned@ + items@.reverse() =~= turned@);
    turned
}

/// Merges two vectors. On a tie what is in `left` goes first.
pub fn merge<T: Ranked>(left: Vec<T>, right: Vec<T>) -> (all: Vec<T>)
    ensures
        all@ == merged(left@, right@),
{
    let ghost whole = merged(left@, right@);
    let ghost left_all = left@;
    let ghost right_all = right@;
    let mut left = turned(left);
    let mut right = turned(right);
    let mut all: Vec<T> = Vec::new();
    assert(left@.reverse() =~= left_all);
    assert(right@.reverse() =~= right_all);
    assert(all@ + merged(left@.reverse(), right@.reverse()) =~= whole);
    while left.len() > 0 && right.len() > 0
        invariant
            whole == all@ + merged(left@.reverse(), right@.reverse()),
        decreases left.len() + right.len(),
    {
        let ghost left_before = left@;
        let ghost right_before = right@;
        let ghost all_before = all@;
        let take_left = left[left.len() - 1].may_precede(&right[right.len() - 1]);
        let item = if take_left {
            left.pop().unwrap()
        } else {
            right.pop().unwrap()
        };
        all.push(item);
        proof {
            if take_left {
                assert(left@.reverse() =~= left_before.reverse().drop_first());
            } else {
                assert(right@.reverse() =~= right_before.reverse().drop_first());
            }
            assert(merged(left_before.reverse(), right_before.reverse()) =~= seq![item] + merged(
                left@.reverse(),
                right@.reverse(),
            ));
            assert(all@ + merged(left@.reverse(), right@.reverse()) =~= all_before + merged(
                left_before.reverse(),
                right_before.reverse(),
            ));
        }
    }
    let ghost rest = merged(left@.reverse(), right@.reverse());
    let mut left = turned(left);
    let mut right = turned(right);
    left.append(&mut right);
    assert(left@ =~= rest);
    all.append(&mut left);
    all
}

/// What sorting makes of a sequence: its halves sorted and merged.
pub open spec fn sorted<T: Ranked>(items: Seq<T>) -> Seq<T>
    decreases items.len(),
{
    if items.len() <= 1 {
        items
    } else {
        let half = items.len() / 2;
        merged(sorted(items.take(half as int)), sorted(items.skip(half as int)))
    }
}

/// Sorting keeps everything, adds nothing, and puts it in order.
pub proof fn lemma_sorted<T: Ranked>(items: Seq<T>)
    ensures
        in_order(sorted(items)),
        sorted(items).to_multiset() == items.to_multiset(),
        sorted(items).len() == items.len(),
    decreases items.len(),
{
    broadcast use vstd::seq_lib::group_to_multiset_ensures;

    if items.len() > 1 {
        let half = (items.len() / 2) as int;
        lemma_sorted(items.take(half));
        lemma_sorted(items.skip(half));
        lemma_merged_in_order(sorted(items.take(half)), sorted(items.skip(half)));
        lemma_merged_keeps_all(sorted(items.take(half)), sorted(items.skip(half)));
        assert(items.take(half) + items.skip(half) =~= items);
        vstd::seq_lib::lemma_multiset_commutative(items.take(half), items.skip(half));
    }
}

/// Sorting is stable: things that share a place keep the order they had.
pub proof fn lemma_sorted_is_stable<T: Ranked>(items: Seq<T>, item: T)
    ensures
        sharing(sorted(items), item) == sharing(items, item),
    decreases items.len(),
{
    if items.len() > 1 {
        let half = (items.len() / 2) as int;
        let front = items.take(half);
        let back = items.skip(half);
        lemma_sorted(front);
        lemma_sorted(back);
        lemma_sorted_is_stable(front, item);
        lemma_sorted_is_stable(back, item);
        lemma_merged_is_stable(sorted(front), sorted(back), item);
        lemma_sharing_splits(front, back, item);
        assert(front + back =~= items);
    }
}

/// Sorts a vector, keeping the order of things that share a place.
pub fn sort<T: Ranked>(items: Vec<T>) -> (ordered: Vec<T>)
    ensures
        ordered@ == sorted(items@),
        in_order(ordered@),
        ordered@.to_multiset() == items@.to_multiset(),
    decreases items.len(),
{
    proof {
        lemma_sorted(items@);
    }
    if items.len() <= 1 {
        return items;
    }
    let half: usize = items.len() / 2;
    let ghost all = items@;
    let mut front = items;
    let back = front.split_off(half);
    proof {
        assert(front@ =~= all.take(half as int));
        assert(back@ =~= all.skip(half as int));
    }
    let front = sort(front);
    let back = sort(back);
    merge(front, back)
}

} // verus!
