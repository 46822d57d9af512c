//! Ranking: a stable sort and the cut behind the best `k`.

use vstd::prelude::*;

verus! {

/// Lexicographic order of three numbers.
pub open spec fn before(left: (int, int, int), right: (int, int, int)) -> bool {
    left.0 < right.0 || (left.0 == right.0 && (left.1 < right.1 || (left.1 == right.1 && left.2
        < right.2)))
}

/// An item with a place in a ranking: a smaller rank comes first.
pub trait Ranked: Sized + Copy {
    /// The item's rank.
    spec fn rank(self) -> (int, int, int);

    /// Whether this item ranks before `other`.
    fn ranks_before(&self, other: &Self) -> (result: bool)
        ensures
            result == before(self.rank(), other.rank()),
    ;

    /// Whether this item ties with `other` in the first component of the rank.
    fn ties_with(&self, other: &Self) -> (result: bool)
        ensures
            result == (self.rank().0 == other.rank().0),
    ;
}

/// `s` with `x` placed behind every item that does not rank after it, counted
/// from the end.
pub open spec fn inserted<T: Ranked>(s: Seq<T>, x: T) -> Seq<T>
    decreases s.len(),
{
    if s.len() == 0 || !before(x.rank(), s.last().rank()) {
        s.push(x)
    } else {
        inserted(s.drop_last(), x).push(s.last())
    }
}

/// `s` in ranking order; items of equal rank keep their order.
pub open spec fn ranked<T: Ranked>(s: Seq<T>) -> Seq<T>
    decreases s.len(),
{
    if s.len() == 0 {
        s
    } else {
        inserted(ranked(s.drop_last()), s.last())
    }
}

/// Two ranked sequences merged; of equal ranks those of `left` come first.
pub open spec fn merged<T: Ranked>(left: Seq<T>, right: Seq<T>) -> Seq<T>
    decreases left.len() + right.len(),
{
    if left.len() == 0 {
        right
    } else if right.len() == 0 {
        left
    } else if before(right.last().rank(), left.last().rank()) {
        merged(left.drop_last(), right).push(left.last())
    } else {
        merged(left, right.drop_last()).push(right.last())
    }
}

/// No item ranks before an earlier one.
pub open spec fn is_ranked<T: Ranked>(s: Seq<T>) -> bool {
    forall|i: int, j: int|
        0 <= i < j < s.len() ==> !before((#[trigger] s[j]).rank(), (#[trigger] s[i]).rank())
}

proof fn lemma_merge_insert<T: Ranked>(left: Seq<T>, right: Seq<T>, x: T)
    ensures
        merged(left, inserted(right, x)) == inserted(merged(left, right), x),
    decreases left.len() + right.len(),
{
    let both = merged(left, right);
    if right.len() == 0 {
        assert(inserted(right, x) == right.push(x));
        let single = right.push(x);
        assert(single.drop_last() == right);
        if left.len() == 0 {
            assert(single == left.push(x));
        } else if before(x.rank(), left.last().rank()) {
            lemma_merge_insert(left.drop_last(), right, x);
            if left.len() == 1 {
                assert(left.drop_last() == right);
            }
        }
    } else if left.len() > 0 {
        let bigger = inserted(right, x);
        if !before(x.rank(), right.last().rank()) {
            assert(bigger == right.push(x));
            assert(bigger.drop_last() == right);
            if before(x.rank(), left.last().rank()) {
                lemma_merge_insert(left.drop_last(), right, x);
                assert(both.drop_last() == merged(left.drop_last(), right));
            }
        } else {
            assert(bigger.drop_last() == inserted(right.drop_last(), x));
            assert(bigger.last() == right.last());
            if before(right.last().rank(), left.last().rank()) {
                lemma_merge_insert(left.drop_last(), right, x);
                assert(both.drop_last() == merged(left.drop_last(), right));
            } else {
                lemma_merge_insert(left, right.drop_last(), x);
                assert(both.drop_last() == merged(left, right.drop_last()));
            }
        }
    }
}

/// Ranking a concatenation is ranking both parts and merging them.
pub proof fn lemma_ranked_concat<T: Ranked>(left: Seq<T>, right: Seq<T>)
    ensures
        ranked(left + right) == merged(ranked(left), ranked(right)),
    decreases right.len(),
{
    lemma_ranked_is_permutation(left);
    if right.len() == 0 {
        assert(left + right == left);
        assert(ranked(right) == right);
        if ranked(left).len() == 0 {
            assert(ranked(left) == right);
        }
    } else {
        let shorter = right.drop_last();
        lemma_ranked_concat(left, shorter);
        assert((left + right).drop_last() == left + shorter);
        lemma_merge_insert(ranked(left), ranked(shorter), right.last());
    }
}

proof fn lemma_inserted_is_permutation<T: Ranked>(s: Seq<T>, x: T)
    ensures
        inserted(s, x).len() == s.len() + 1,
        inserted(s, x).to_multiset() == s.to_multiset().insert(x),
    decreases s.len(),
{
    broadcast use vstd::seq_lib::group_to_multiset_ensures;

    if s.len() > 0 && before(x.rank(), s.last().rank()) {
        lemma_inserted_is_permutation(s.drop_last(), x);
        assert(s == s.drop_last().push(s.last()));
        assert(inserted(s, x).to_multiset() =~= s.to_multiset().insert(x));
    }
}

/// Ranking keeps every item, as often as it occurs.
pub proof fn lemma_ranked_is_permutation<T: Ranked>(s: Seq<T>)
    ensures
        ranked(s).len() == s.len(),
        ranked(s).to_multiset() == s.to_multiset(),
    decreases s.len(),
{
    broadcast use vstd::seq_lib::group_to_multiset_ensures;

    if s.len() > 0 {
        lemma_ranked_is_permutation(s.drop_last());
        lemma_inserted_is_permutation(ranked(s.drop_last()), s.last());
        assert(s == s.drop_last().push(s.last()));
    }
}

/// A permutation has the same members.
pub proof fn lemma_permutation_keeps_members<T>(a: Seq<T>, b: Seq<T>)
    requires
        a.to_multiset() == b.to_multiset(),
    ensures
        forall|x: T| #[trigger] a.contains(x) <==> b.contains(x),
        a.len() == b.len(),
{
    broadcast use vstd::seq_lib::group_to_multiset_ensures;

    assert forall|x: T| #[trigger] a.contains(x) <==> b.contains(x) by {
        assert(a.contains(x) <==> a.to_multiset().count(x) > 0);
        assert(b.contains(x) <==> b.to_multiset().count(x) > 0);
    }
    assert(a.len() == a.to_multiset().len());
    assert(b.len() == b.to_multiset().len());
}

proof fn lemma_inserted_keeps_ranking<T: Ranked>(s: Seq<T>, x: T)
    requires
        is_ranked(s),
    ensures
        is_ranked(inserted(s, x)),
        forall|i: int|
            0 <= i < inserted(s, x).len() ==> (#[trigger] inserted(s, x)[i]) == x || exists|j: int|
                0 <= j < s.len() && s[j] == inserted(s, x)[i],
    decreases s.len(),
{
    let out = inserted(s, x);
    if s.len() == 0 || !before(x.rank(), s.last().rank()) {
        assert forall|i: int, j: int| 0 <= i < j < out.len() implies !before(
            (#[trigger] out[j]).rank(),
            (#[trigger] out[i]).rank(),
        ) by {
            if j == s.len() {
                assert(out[i] == s[i]);
                if i < s.len() - 1 {
                    assert(!before(s[s.len() - 1].rank(), s[i].rank()));
                }
            } else {
                assert(out[i] == s[i] && out[j] == s[j]);
            }
        }
        assert forall|i: int| 0 <= i < out.len() implies (#[trigger] out[i]) == x || exists|j: int|
            0 <= j < s.len() && s[j] == out[i] by {
            if i < s.len() {
                assert(out[i] == s[i]);
            }
        }
    } else {
        let shorter = s.drop_last();
        assert forall|i: int, j: int| 0 <= i < j < shorter.len() implies !before(
            (#[trigger] shorter[j]).rank(),
            (#[trigger] shorter[i]).rank(),
        ) by {
            assert(shorter[i] == s[i] && shorter[j] == s[j]);
        }
        lemma_inserted_keeps_ranking(shorter, x);
        let inner = inserted(shorter, x);
        lemma_inserted_is_permutation(shorter, x);
        assert forall|i: int, j: int| 0 <= i < j < out.len() implies !before(
            (#[trigger] out[j]).rank(),
            (#[trigger] out[i]).rank(),
        ) by {
            assert(out[i] == inner[i]);
            if j == inner.len() {
                if inner[i] != x {
                    let m = choose|m: int| 0 <= m < shorter.len() && shorter[m] == inner[i];
                    assert(shorter[m] == s[m]);
                    assert(!before(s[s.len() - 1].rank(), s[m].rank()));
                }
            } else {
                assert(out[j] == inner[j]);
            }
        }
        assert forall|i: int| 0 <= i < out.len() implies (#[trigger] out[i]) == x || exists|j: int|
            0 <= j < s.len() && s[j] == out[i] by {
            if i < inner.len() {
                assert(out[i] == inner[i]);
                if inner[i] != x {
                    let m = choose|m: int| 0 <= m < shorter.len() && shorter[m] == inner[i];
                    assert(s[m] == out[i]);
                }
            } else {
                assert(out[i] == s[s.len() - 1]);
            }
        }
    }
}

/// Ranking puts every item in its place.
pub proof fn lemma_ranked_is_ranked<T: Ranked>(s: Seq<T>)
    ensures
        is_ranked(ranked(s)),
    decreases s.len(),
{
    if s.len() > 0 {
        lemma_ranked_is_ranked(s.drop_last());
        lemma_inserted_keeps_ranking(ranked(s.drop_last()), s.last());
    }
}

/// What is in order already stays as it is.
pub proof fn lemma_ranked_is_stable<T: Ranked>(s: Seq<T>)
    requires
        is_ranked(s),
    ensures
        ranked(s) == s,
    decreases s.len(),
{
    if s.len() > 0 {
        let shorter = s.drop_last();
        assert forall|i: int, j: int| 0 <= i < j < shorter.len() implies !before(
            (#[trigger] shorter[j]).rank(),
            (#[trigger] shorter[i]).rank(),
        ) by {
            assert(shorter[i] == s[i] && shorter[j] == s[j]);
        }
        lemma_ranked_is_stable(shorter);
        if shorter.len() > 0 {
            assert(shorter.last() == s[s.len() - 2]);
            assert(!before(s[s.len() - 1].rank(), s[s.len() - 2].rank()));
        }
        assert(shorter.push(s.last()) == s);
    }
}

fn copy_range<T: Ranked>(items: &Vec<T>, from: usize, to: usize) -> (part: Vec<T>)
    requires
        from <= to <= items.len(),
    ensures
        part@ == items@.subrange(from as int, to as int),
{
    let mut part: Vec<T> = Vec::with_capacity(to - from);
    let mut at: usize = from;
    while at < to
        invariant
            from <= at <= to <= items.len(),
            part@ == items@.subrange(from as int, at as int),
        decreases to - at,
    {
        part.push(items[at]);
        at = at + 1;
    }
    part
}

fn merge_into<T: Ranked>(left: &Vec<T>, right: &Vec<T>, out: &mut Vec<T>)
    requires
        old(out)@.len() == left@.len() + right@.len(),
    ensures
        final(out)@ == merged(left@, right@),
{
    let ghost target = merged(left@, right@);
    let total: usize = out.len();
    let mut i: usize = left.len();
    let mut j: usize = right.len();
    assert(left@.take(i as int) == left@);
    assert(right@.take(j as int) == right@);
    proof {
        lemma_merged_len(left@, right@);
    }
    while i > 0 || j > 0
        invariant
            i <= left@.len(),
            j <= right@.len(),
            total == out@.len(),
            out@.len() == left@.len() + right@.len(),
            target.len() == out@.len(),
            target == merged(left@.take(i as int), right@.take(j as int)) + out@.skip(i + j),
        decreases i + j,
    {
        let ghost heads = left@.take(i as int);
        let ghost tails = right@.take(j as int);
        let ghost tail = out@.skip(i + j);
        let from_left = if i == 0 {
            false
        } else if j == 0 {
            true
        } else {
            right[j - 1].ranks_before(&left[i - 1])
        };
        proof {
            lemma_merged_len(heads, tails);
        }
        if from_left {
            let item = left[i - 1];
            i = i - 1;
            out.set(i + j, item);
            assert(heads.drop_last() == left@.take(i as int));
            assert(out@.skip(i + j) == seq![item] + tail);
            assert(merged(heads, tails) == merged(left@.take(i as int), tails).push(item)) by {
                if j == 0 {
                    assert(heads == left@.take(i as int).push(item));
                    if i == 0 {
                        assert(left@.take(0) == tails);
                    }
                }
            }
        } else {
            let item = right[j - 1];
            j = j - 1;
            out.set(i + j, item);
            assert(tails.drop_last() == right@.take(j as int));
            assert(out@.skip(i + j) == seq![item] + tail);
            assert(merged(heads, tails) == merged(heads, right@.take(j as int)).push(item)) by {
                if i == 0 {
                    assert(tails == right@.take(j as int).push(item));
                } else if j == 0 {
                    assert(tails == right@.take(0).push(item));
                }
            }
        }
        assert(target == merged(left@.take(i as int), right@.take(j as int)) + out@.skip(i + j));
    }
    assert(left@.take(0) == Seq::<T>::empty());
    assert(right@.take(0) == Seq::<T>::empty());
    assert(out@.skip(0) == out@);
    assert(target == out@);
}

proof fn lemma_merged_len<T: Ranked>(left: Seq<T>, right: Seq<T>)
    ensures
        merged(left, right).len() == left.len() + right.len(),
    decreases left.len() + right.len(),
{
    if left.len() > 0 && right.len() > 0 {
        if before(right.last().rank(), left.last().rank()) {
            lemma_merged_len(left.drop_last(), right);
        } else {
            lemma_merged_len(left, right.drop_last());
        }
    }
}

/// Sorts `items` into ranking order; items of equal rank keep their order.
pub fn rank_items<T: Ranked>(items: &mut Vec<T>)
    ensures
        final(items)@ == ranked(old(items)@),
    decreases old(items)@.len(),
{
    let count: usize = items.len();
    if count < 2 {
        proof {
            lemma_ranked_is_stable(items@);
        }
        return;
    }
    let middle: usize = count / 2;
    let mut left = copy_range(items, 0, middle);
    let mut right = copy_range(items, middle, count);
    proof {
        lemma_ranked_is_permutation(left@);
        lemma_ranked_is_permutation(right@);
        assert(left@ + right@ == items@);
        lemma_ranked_concat(left@, right@);
    }
    rank_items(&mut left);
    rank_items(&mut right);
    merge_into(&left, &right, items);
}

/// The first `k` items, all of them where there are fewer.
pub open spec fn best<T>(s: Seq<T>, k: nat) -> Seq<T> {
    if s.len() <= k {
        s
    } else {
        s.take(k as int)
    }
}

/// How many items stay when `s` is cut behind `k` but items that tie with the
/// `k`-th in the first component of their rank stay.
pub open spec fn kept_with_ties<T: Ranked>(s: Seq<T>, k: nat, end: nat) -> nat
    decreases s.len() - end,
{
    if end < s.len() && 0 < k <= end && s[end as int].rank().0 == s[k - 1].rank().0 {
        kept_with_ties(s, k, end + 1)
    } else {
        end
    }
}

/// The first `k` items and every item right behind them that ties with the
/// `k`-th in the first component of its rank; none for a `k` of zero.
pub open spec fn best_with_ties<T: Ranked>(s: Seq<T>, k: nat) -> Seq<T> {
    if s.len() <= k {
        s
    } else {
        s.take(kept_with_ties(s, k, k) as int)
    }
}

/// The cut with ties keeps at least the plain cut and at most everything.
pub proof fn lemma_ties_bounds<T: Ranked>(s: Seq<T>, k: nat, end: nat)
    requires
        end <= s.len(),
    ensures
        end <= kept_with_ties(s, k, end) <= s.len(),
        forall|i: int|
            end <= i < kept_with_ties(s, k, end) ==> (#[trigger] s[i]).rank().0
                == s[k - 1].rank().0,
        kept_with_ties(s, k, end) < s.len() && 0 < k <= end ==> s[kept_with_ties(
            s,
            k,
            end,
        ) as int].rank().0 != s[k - 1].rank().0,
    decreases s.len() - end,
{
    if end < s.len() && 0 < k <= end && s[end as int].rank().0 == s[k - 1].rank().0 {
        lemma_ties_bounds(s, k, end + 1);
    }
}

/// Cuts ranked items behind the best `k` and those that tie with the `k`-th.
pub fn truncate_to_k_with_score_ties<T: Ranked>(items: &mut Vec<T>, k: usize)
    ensures
        final(items)@ == best_with_ties(old(items)@, k as nat),
{
    if items.len() <= k {
        return;
    }
    let mut end: usize = k;
    if k > 0 {
        while end < items.len() && items[end].ties_with(&items[k - 1])
            invariant
                0 < k <= end <= items@.len(),
                items@ == old(items)@,
                kept_with_ties(items@, k as nat, k as nat) == kept_with_ties(
                    items@,
                    k as nat,
                    end as nat,
                ),
            decreases items.len() - end,
        {
            end = end + 1;
        }
    }
    items.truncate(end);
}

proof fn lemma_merge_of_cut<T: Ranked>(left: Seq<T>, right: Seq<T>, k: nat)
    requires
        is_ranked(left),
        k <= left.len(),
    ensures
        merged(left, right).take(k as int) == merged(left.take(k as int), right).take(k as int),
    decreases left.len() + right.len(),
{
    let cut = left.take(k as int);
    lemma_merged_len(left, right);
    lemma_merged_len(cut, right);
    if left.len() == k {
        assert(cut == left);
    } else if right.len() == 0 {
        assert(merged(left, right) == left);
        if k == 0 {
            assert(merged(cut, right).take(0) == left.take(0));
        } else {
            assert(merged(cut, right) == cut);
            assert(cut.take(k as int) == cut);
        }
    } else if before(right.last().rank(), left.last().rank()) {
        let shorter = left.drop_last();
        assert forall|i: int, j: int| 0 <= i < j < shorter.len() implies !before(
            (#[trigger] shorter[j]).rank(),
            (#[trigger] shorter[i]).rank(),
        ) by {
            assert(shorter[i] == left[i] && shorter[j] == left[j]);
        }
        lemma_merge_of_cut(shorter, right, k);
        lemma_merged_len(shorter, right);
        assert(shorter.take(k as int) == cut);
        assert(merged(left, right).take(k as int) == merged(shorter, right).take(k as int));
    } else {
        let fewer = right.drop_last();
        lemma_merge_of_cut(left, fewer, k);
        lemma_merged_len(left, fewer);
        lemma_merged_len(cut, fewer);
        assert(merged(left, right).take(k as int) == merged(left, fewer).take(k as int));
        if k == 0 {
            assert(merged(cut, right).take(0) == merged(cut, fewer).take(0));
        } else {
            assert(cut.last() == left[k - 1]);
            assert(!before(left[left.len() - 1].rank(), left[k - 1].rank()));
            assert(!before(right.last().rank(), cut.last().rank()));
            assert(merged(cut, right) == merged(cut, fewer).push(right.last()));
            assert(merged(cut, right).take(k as int) == merged(cut, fewer).take(k as int));
        }
    }
}

/// Keeping only the best `k` along the way does not change the best `k` of the
/// whole.
pub proof fn lemma_best_of_best<T: Ranked>(earlier: Seq<T>, later: Seq<T>, k: nat)
    ensures
        best(ranked(best(ranked(earlier), k) + later), k) == best(ranked(earlier + later), k),
{
    let front = ranked(earlier);
    lemma_ranked_is_permutation(earlier);
    lemma_ranked_is_permutation(later);
    lemma_ranked_is_ranked(earlier);
    if front.len() <= k {
        lemma_ranked_concat(front, later);
        lemma_ranked_concat(earlier, later);
        lemma_ranked_is_stable(front);
    } else {
        let cut = front.take(k as int);
        assert forall|i: int, j: int| 0 <= i < j < cut.len() implies !before(
            (#[trigger] cut[j]).rank(),
            (#[trigger] cut[i]).rank(),
        ) by {
            assert(cut[i] == front[i] && cut[j] == front[j]);
        }
        lemma_ranked_concat(cut, later);
        lemma_ranked_concat(earlier, later);
        lemma_ranked_is_stable(cut);
        lemma_merge_of_cut(front, ranked(later), k);
        lemma_merged_len(front, ranked(later));
        lemma_merged_len(cut, ranked(later));
        if later.len() == 0 {
            assert(merged(cut, ranked(later)).take(k as int) == merged(cut, ranked(later)));
        }
    }
}

proof fn lemma_merge_of_worse<T: Ranked>(left: Seq<T>, right: Seq<T>, k: nat)
    requires
        0 < k <= left.len(),
        is_ranked(left),
        forall|i: int|
            0 <= i < right.len() ==> before(left[k - 1].rank(), (#[trigger] right[i]).rank()),
    ensures
        merged(left, right).take(k as int) == left.take(k as int),
    decreases left.len() + right.len(),
{
    lemma_merged_len(left, right);
    if right.len() == 0 {
        assert(merged(left, right) == left);
    } else if before(right.last().rank(), left.last().rank()) {
        assert(right.last() == right[right.len() - 1]);
        let shorter = left.drop_last();
        assert(left.len() > k);
        assert forall|i: int, j: int| 0 <= i < j < shorter.len() implies !before(
            (#[trigger] shorter[j]).rank(),
            (#[trigger] shorter[i]).rank(),
        ) by {
            assert(shorter[i] == left[i] && shorter[j] == left[j]);
        }
        assert(shorter[k - 1] == left[k - 1]);
        lemma_merge_of_worse(shorter, right, k);
        lemma_merged_len(shorter, right);
        assert(merged(left, right).take(k as int) == merged(shorter, right).take(k as int));
        assert(shorter.take(k as int) == left.take(k as int));
    } else {
        let fewer = right.drop_last();
        assert forall|i: int| 0 <= i < fewer.len() implies before(
            left[k - 1].rank(),
            (#[trigger] fewer[i]).rank(),
        ) by {
            assert(fewer[i] == right[i]);
        }
        lemma_merge_of_worse(left, fewer, k);
        lemma_merged_len(left, fewer);
        assert(merged(left, right).take(k as int) == merged(left, fewer).take(k as int));
    }
}

/// Items that all rank behind the `k`-th change nothing among the best `k`.
pub proof fn lemma_worse_items_change_nothing<T: Ranked>(earlier: Seq<T>, later: Seq<T>, k: nat)
    requires
        0 < k <= earlier.len(),
        forall|i: int|
            0 <= i < later.len() ==> before(
                ranked(earlier)[k - 1].rank(),
                (#[trigger] later[i]).rank(),
            ),
    ensures
        best(ranked(earlier + later), k) == best(ranked(earlier), k),
{
    let front = ranked(earlier);
    let back = ranked(later);
    lemma_ranked_is_permutation(earlier);
    lemma_ranked_is_permutation(later);
    lemma_ranked_is_ranked(earlier);
    lemma_ranked_concat(earlier, later);
    assert forall|i: int| 0 <= i < back.len() implies before(
        front[k - 1].rank(),
        (#[trigger] back[i]).rank(),
    ) by {
        lemma_permutation_keeps_members(back, later);
        assert(back.contains(back[i]));
        let j = choose|j: int| 0 <= j < later.len() && later[j] == back[i];
        assert(before(front[k - 1].rank(), later[j].rank()));
    }
    lemma_merge_of_worse(front, back, k);
    lemma_merged_len(front, back);
    if front.len() == k {
        assert(front.take(k as int) == front);
    }
    if later.len() == 0 {
        assert(earlier + later == earlier);
    }
}

proof fn lemma_merged_is_ranked<T: Ranked>(left: Seq<T>, right: Seq<T>)
    requires
        is_ranked(left),
        is_ranked(right),
    ensures
        is_ranked(merged(left, right)),
{
    lemma_ranked_is_stable(left);
    lemma_ranked_is_stable(right);
    lemma_ranked_concat(left, right);
    lemma_ranked_is_ranked(left + right);
}

proof fn lemma_prefix_is_ranked<T: Ranked>(s: Seq<T>)
    requires
        is_ranked(s),
        s.len() > 0,
    ensures
        is_ranked(s.drop_last()),
{
    let shorter = s.drop_last();
    assert forall|i: int, j: int| 0 <= i < j < shorter.len() implies !before(
        (#[trigger] shorter[j]).rank(),
        (#[trigger] shorter[i]).rank(),
    ) by {
        assert(shorter[i] == s[i] && shorter[j] == s[j]);
    }
}

proof fn lemma_kept_of_push<T: Ranked>(s: Seq<T>, x: T, k: nat, end: nat)
    requires
        0 < k <= end <= s.len(),
        x.rank().0 != s[k - 1].rank().0,
    ensures
        kept_with_ties(s.push(x), k, end) == kept_with_ties(s, k, end),
    decreases s.len() - end,
{
    let longer = s.push(x);
    assert(longer[k - 1] == s[k - 1]);
    if end < s.len() {
        assert(longer[end as int] == s[end as int]);
        if s[end as int].rank().0 == s[k - 1].rank().0 {
            lemma_kept_of_push(s, x, k, end + 1);
        }
    } else {
        assert(longer[end as int] == x);
    }
}

proof fn lemma_ties_ignore_worse<T: Ranked>(s: Seq<T>, x: T, k: nat)
    requires
        0 < k <= s.len(),
        x.rank().0 != s[k - 1].rank().0,
    ensures
        best_with_ties(s.push(x), k) == best_with_ties(s, k),
{
    lemma_kept_of_push(s, x, k, k);
    lemma_ties_bounds(s, k, k);
    let kept = kept_with_ties(s, k, k) as int;
    assert(s.push(x).take(kept) == s.take(kept));
    if s.len() == k {
        assert(s.take(kept) == s);
    }
}

proof fn lemma_merged_place<T: Ranked>(left: Seq<T>, right: Seq<T>, k: nat)
    requires
        is_ranked(left),
        is_ranked(right),
        0 < k,
    ensures
        k <= left.len() ==> merged(left, right)[k - 1].rank().0 <= left[k - 1].rank().0,
        k <= right.len() ==> merged(left, right)[k - 1].rank().0 <= right[k - 1].rank().0,
    decreases left.len() + right.len(),
{
    lemma_merged_len(left, right);
    lemma_merged_is_ranked(left, right);
    let both = merged(left, right);
    if left.len() > 0 && right.len() > 0 {
        if before(right.last().rank(), left.last().rank()) {
            let shorter = left.drop_last();
            lemma_prefix_is_ranked(left);
            lemma_merged_place(shorter, right, k);
            lemma_merged_len(shorter, right);
            if k <= shorter.len() {
                assert(both[k - 1] == merged(shorter, right)[k - 1]);
            } else if k == left.len() {
                assert(both[both.len() - 1] == left[k - 1]);
                assert(!before(both[both.len() - 1].rank(), both[k - 1].rank()));
            }
            if k <= right.len() {
                assert(both[k - 1] == merged(shorter, right)[k - 1]);
            }
        } else {
            let fewer = right.drop_last();
            lemma_prefix_is_ranked(right);
            lemma_merged_place(left, fewer, k);
            lemma_merged_len(left, fewer);
            if k <= left.len() {
                assert(both[k - 1] == merged(left, fewer)[k - 1]);
            }
            if k <= fewer.len() {
                assert(both[k - 1] == merged(left, fewer)[k - 1]);
            } else if k == right.len() {
                assert(both[both.len() - 1] == right[k - 1]);
                assert(!before(both[both.len() - 1].rank(), both[k - 1].rank()));
            }
        }
    }
}

proof fn lemma_ties_drop_left<T: Ranked>(left: Seq<T>, right: Seq<T>, k: nat)
    requires
        is_ranked(left),
        is_ranked(right),
        0 < k < left.len(),
        left.last().rank().0 > left[k - 1].rank().0,
    ensures
        best_with_ties(merged(left, right), k) == best_with_ties(merged(left.drop_last(), right), k),
    decreases right.len(),
{
    let shorter = left.drop_last();
    lemma_prefix_is_ranked(left);
    lemma_merged_len(left, right);
    lemma_merged_len(shorter, right);
    lemma_merged_place(shorter, right, k);
    assert(shorter[k - 1] == left[k - 1]);
    if right.len() == 0 || before(right.last().rank(), left.last().rank()) {
        if right.len() == 0 {
            assert(merged(left, right) == left);
            assert(merged(shorter, right) == shorter);
            assert(left == shorter.push(left.last()));
        }
        lemma_ties_ignore_worse(merged(shorter, right), left.last(), k);
    } else {
        let fewer = right.drop_last();
        lemma_prefix_is_ranked(right);
        lemma_ties_drop_left(left, fewer, k);
        lemma_merged_len(left, fewer);
        lemma_merged_len(shorter, fewer);
        lemma_merged_place(left, fewer, k);
        lemma_merged_place(shorter, fewer, k);
        assert(shorter.last() == left[left.len() - 2]);
        assert(!before(left[left.len() - 1].rank(), left[left.len() - 2].rank()));
        assert(!before(right.last().rank(), shorter.last().rank()));
        lemma_ties_ignore_worse(merged(left, fewer), right.last(), k);
        lemma_ties_ignore_worse(merged(shorter, fewer), right.last(), k);
    }
}

proof fn lemma_ties_drop_right<T: Ranked>(left: Seq<T>, right: Seq<T>, k: nat)
    requires
        is_ranked(left),
        is_ranked(right),
        0 < k < right.len(),
        right.last().rank().0 > right[k - 1].rank().0,
    ensures
        best_with_ties(merged(left, right), k) == best_with_ties(merged(left, right.drop_last()), k),
    decreases left.len(),
{
    let fewer = right.drop_last();
    lemma_prefix_is_ranked(right);
    lemma_merged_len(left, right);
    lemma_merged_len(left, fewer);
    lemma_merged_place(left, fewer, k);
    assert(fewer[k - 1] == right[k - 1]);
    if left.len() > 0 && before(right.last().rank(), left.last().rank()) {
        let shorter = left.drop_last();
        lemma_prefix_is_ranked(left);
        lemma_ties_drop_right(shorter, right, k);
        lemma_merged_len(shorter, right);
        lemma_merged_len(shorter, fewer);
        lemma_merged_place(shorter, right, k);
        lemma_merged_place(shorter, fewer, k);
        assert(fewer.last() == right[right.len() - 2]);
        assert(!before(right[right.len() - 1].rank(), right[right.len() - 2].rank()));
        assert(before(fewer.last().rank(), left.last().rank()));
        lemma_ties_ignore_worse(merged(shorter, right), left.last(), k);
        lemma_ties_ignore_worse(merged(shorter, fewer), left.last(), k);
    } else {
        if left.len() == 0 {
            assert(merged(left, right) == right);
            assert(merged(left, fewer) == fewer);
            assert(right == fewer.push(right.last()));
        }
        lemma_ties_ignore_worse(merged(left, fewer), right.last(), k);
    }
}

proof fn lemma_tail_is_worse<T: Ranked>(s: Seq<T>, k: nat, at: int)
    requires
        is_ranked(s),
        0 < k < s.len(),
        kept_with_ties(s, k, k) <= at < s.len(),
    ensures
        s[at].rank().0 > s[k - 1].rank().0,
{
    lemma_ties_bounds(s, k, k);
    let kept = kept_with_ties(s, k, k) as int;
    assert(s[kept].rank().0 != s[k - 1].rank().0);
    assert(!before(s[kept].rank(), s[k - 1].rank()));
    if kept < at {
        assert(!before(s[at].rank(), s[kept].rank()));
    }
}

proof fn lemma_ties_cut_left<T: Ranked>(left: Seq<T>, right: Seq<T>, k: nat, end: nat)
    requires
        is_ranked(left),
        is_ranked(right),
        0 < k < left.len(),
        kept_with_ties(left, k, k) <= end <= left.len(),
    ensures
        best_with_ties(merged(left.take(end as int), right), k) == best_with_ties(
            merged(left, right),
            k,
        ),
    decreases left.len() - end,
{
    lemma_ties_bounds(left, k, k);
    if end == left.len() {
        assert(left.take(end as int) == left);
    } else {
        lemma_ties_cut_left(left, right, k, end + 1);
        let longer = left.take((end + 1) as int);
        assert(longer.drop_last() == left.take(end as int));
        assert(longer[k - 1] == left[k - 1]);
        assert forall|i: int, j: int| 0 <= i < j < longer.len() implies !before(
            (#[trigger] longer[j]).rank(),
            (#[trigger] longer[i]).rank(),
        ) by {
            assert(longer[i] == left[i] && longer[j] == left[j]);
        }
        lemma_tail_is_worse(left, k, end as int);
        lemma_ties_drop_left(longer, right, k);
    }
}

proof fn lemma_ties_cut_right<T: Ranked>(left: Seq<T>, right: Seq<T>, k: nat, end: nat)
    requires
        is_ranked(left),
        is_ranked(right),
        0 < k < right.len(),
        kept_with_ties(right, k, k) <= end <= right.len(),
    ensures
        best_with_ties(merged(left, right.take(end as int)), k) == best_with_ties(
            merged(left, right),
            k,
        ),
    decreases right.len() - end,
{
    lemma_ties_bounds(right, k, k);
    if end == right.len() {
        assert(right.take(end as int) == right);
    } else {
        lemma_ties_cut_right(left, right, k, end + 1);
        let longer = right.take((end + 1) as int);
        assert(longer.drop_last() == right.take(end as int));
        assert(longer[k - 1] == right[k - 1]);
        assert forall|i: int, j: int| 0 <= i < j < longer.len() implies !before(
            (#[trigger] longer[j]).rank(),
            (#[trigger] longer[i]).rank(),
        ) by {
            assert(longer[i] == right[i] && longer[j] == right[j]);
        }
        lemma_tail_is_worse(right, k, end as int);
        lemma_ties_drop_right(left, longer, k);
    }
}

proof fn lemma_take_is_ranked<T: Ranked>(s: Seq<T>, end: int)
    requires
        is_ranked(s),
        0 <= end <= s.len(),
    ensures
        is_ranked(s.take(end)),
{
    let front = s.take(end);
    assert forall|i: int, j: int| 0 <= i < j < front.len() implies !before(
        (#[trigger] front[j]).rank(),
        (#[trigger] front[i]).rank(),
    ) by {
        assert(front[i] == s[i] && front[j] == s[j]);
    }
}

/// Cutting both parts of a ranking behind their best `k` with ties does not
/// change the best `k` with ties of the whole.
pub proof fn lemma_ties_of_parts<T: Ranked>(earlier: Seq<T>, later: Seq<T>, k: nat)
    ensures
        best_with_ties(
            ranked(best_with_ties(ranked(earlier), k) + best_with_ties(ranked(later), k)),
            k,
        ) == best_with_ties(ranked(earlier + later), k),
{
    let front = ranked(earlier);
    let back = ranked(later);
    let front_cut = best_with_ties(front, k);
    let back_cut = best_with_ties(back, k);
    lemma_ranked_is_ranked(earlier);
    lemma_ranked_is_ranked(later);
    if front.len() > k {
        lemma_ties_bounds(front, k, k);
        lemma_take_is_ranked(front, kept_with_ties(front, k, k) as int);
    }
    if back.len() > k {
        lemma_ties_bounds(back, k, k);
        lemma_take_is_ranked(back, kept_with_ties(back, k, k) as int);
    }
    lemma_ranked_is_stable(front_cut);
    lemma_ranked_is_stable(back_cut);
    lemma_ranked_concat(front_cut, back_cut);
    lemma_ranked_concat(earlier, later);
    if k == 0 {
        lemma_ranked_is_permutation(front_cut + back_cut);
        lemma_ranked_is_permutation(earlier + later);
        assert(best_with_ties(ranked(earlier + later), 0) == Seq::<T>::empty());
        assert(best_with_ties(ranked(front_cut + back_cut), 0) == Seq::<T>::empty());
    } else {
        if back.len() > k {
            lemma_ties_cut_right(front_cut, back, k, kept_with_ties(back, k, k));
        }
        if front.len() > k {
            lemma_ties_cut_left(front, back, k, kept_with_ties(front, k, k));
        }
    }
}

/// Cutting a ranking behind its best `k` with ties twice is cutting it once.
pub proof fn lemma_ties_of_ties<T: Ranked>(s: Seq<T>, k: nat)
    ensures
        best_with_ties(ranked(best_with_ties(ranked(s), k)), k) == best_with_ties(ranked(s), k),
{
    let none = Seq::<T>::empty();
    lemma_ties_of_parts(s, none, k);
    assert(ranked(none) == none);
    assert(best_with_ties(none, k) == none);
    assert(s + none == s);
    assert(best_with_ties(ranked(s), k) + none == best_with_ties(ranked(s), k));
}

/// The cut with ties holds the plain cut.
pub proof fn lemma_ties_hold_the_best<T: Ranked>(s: Seq<T>, k: nat)
    ensures
        best(best_with_ties(s, k), k) == best(s, k),
{
    if s.len() > k {
        lemma_ties_bounds(s, k, k);
        assert(best_with_ties(s, k).take(k as int) == s.take(k as int));
    }
}

/// The best `k` are a selection: as many as there are, at most `k`, each as often as
/// it was offered, in ranking order, and nothing that was left out ranks before one
/// that was kept.
pub proof fn lemma_best_is_a_selection<T: Ranked>(s: Seq<T>, k: nat)
    ensures
        s.len() <= k ==> best(ranked(s), k).len() == s.len(),
        s.len() > k ==> best(ranked(s), k).len() == k,
        best(ranked(s), k).to_multiset().subset_of(s.to_multiset()),
        forall|x: T| #[trigger] best(ranked(s), k).contains(x) ==> s.contains(x),
        forall|i: int, j: int|
            0 <= i < j < best(ranked(s), k).len() ==> !before(
                (#[trigger] best(ranked(s), k)[j]).rank(),
                (#[trigger] best(ranked(s), k)[i]).rank(),
            ),
        forall|x: T, i: int|
            s.contains(x) && 0 <= i < best(ranked(s), k).len() && before(
                x.rank(),
                (#[trigger] best(ranked(s), k)[i]).rank(),
            ) ==> #[trigger] best(ranked(s), k).contains(x),
{
    let order = ranked(s);
    let kept = best(order, k);
    lemma_ranked_is_permutation(s);
    lemma_permutation_keeps_members(order, s);
    lemma_ranked_is_ranked(s);
    let rest = order.skip(kept.len() as int);
    assert(order =~= kept + rest);
    vstd::seq_lib::lemma_multiset_commutative(kept, rest);
    assert forall|x: T| #[trigger] kept.contains(x) implies s.contains(x) by {
        let at = choose|at: int| 0 <= at < kept.len() && kept[at] == x;
        assert(order[at] == x);
        assert(order.contains(x));
    }
    assert forall|i: int, j: int| 0 <= i < j < kept.len() implies !before(
        (#[trigger] kept[j]).rank(),
        (#[trigger] kept[i]).rank(),
    ) by {
        assert(order[i] == kept[i] && order[j] == kept[j]);
    }
    assert forall|x: T, i: int|
        s.contains(x) && 0 <= i < kept.len() && before(
            x.rank(),
            (#[trigger] kept[i]).rank(),
        ) implies #[trigger] kept.contains(x) by {
        assert(order.contains(x));
        let at = choose|at: int| 0 <= at < order.len() && order[at] == x;
        assert(order[i] == kept[i]);
        if at >= kept.len() {
            assert(!before(order[at].rank(), order[i].rank()));
        }
        assert(kept[at] == x);
    }
}

/// The best `k` with ties are a selection too: at least the best `k`, in ranking
/// order, and every item that ties with the last of them is among them.
pub proof fn lemma_best_with_ties_is_a_selection<T: Ranked>(s: Seq<T>, k: nat)
    ensures
        s.len() <= k ==> best_with_ties(ranked(s), k).len() == s.len(),
        s.len() > k ==> best_with_ties(ranked(s), k).len() >= k,
        k == 0 ==> best_with_ties(ranked(s), k).len() == 0,
        best_with_ties(ranked(s), k).to_multiset().subset_of(s.to_multiset()),
        forall|x: T| #[trigger] best_with_ties(ranked(s), k).contains(x) ==> s.contains(x),
        forall|i: int, j: int|
            0 <= i < j < best_with_ties(ranked(s), k).len() ==> !before(
                (#[trigger] best_with_ties(ranked(s), k)[j]).rank(),
                (#[trigger] best_with_ties(ranked(s), k)[i]).rank(),
            ),
        forall|x: T|
            0 < k <= s.len() && s.contains(x) ==> (#[trigger] best_with_ties(ranked(s), k).contains(
                x,
            ) <==> x.rank().0 <= best_with_ties(ranked(s), k)[k - 1].rank().0),
{
    let order = ranked(s);
    let kept = best_with_ties(order, k);
    lemma_ranked_is_permutation(s);
    lemma_permutation_keeps_members(order, s);
    lemma_ranked_is_ranked(s);
    if order.len() > k {
        lemma_ties_bounds(order, k, k);
    }
    let rest = order.skip(kept.len() as int);
    assert(order =~= kept + rest);
    vstd::seq_lib::lemma_multiset_commutative(kept, rest);
    assert forall|x: T| #[trigger] kept.contains(x) implies s.contains(x) by {
        let at = choose|at: int| 0 <= at < kept.len() && kept[at] == x;
        assert(order[at] == x);
        assert(order.contains(x));
    }
    assert forall|i: int, j: int| 0 <= i < j < kept.len() implies !before(
        (#[trigger] kept[j]).rank(),
        (#[trigger] kept[i]).rank(),
    ) by {
        assert(order[i] == kept[i] && order[j] == kept[j]);
    }
    if 0 < k <= s.len() {
        assert(kept[k - 1] == order[k - 1]);
        assert forall|x: T| s.contains(x) implies (#[trigger] kept.contains(x) <==> x.rank().0
            <= kept[k - 1].rank().0) by {
            assert(order.contains(x));
            let at = choose|at: int| 0 <= at < order.len() && order[at] == x;
            if kept.contains(x) {
                let place = choose|place: int| 0 <= place < kept.len() && kept[place] == x;
                assert(order[place] == x);
                if place < k - 1 {
                    assert(!before(order[k - 1].rank(), order[place].rank()));
                } else if place > k - 1 {
                    assert(order[place].rank().0 == order[k - 1].rank().0);
                }
            } else {
                assert(at >= kept.len()) by {
                    if at < kept.len() {
                        assert(kept[at] == x);
                    }
                }
                let cut = kept.len() as int;
                assert(!before(order[cut].rank(), order[k - 1].rank()));
                assert(order[cut].rank().0 != order[k - 1].rank().0);
                if at > cut {
                    assert(!before(order[at].rank(), order[cut].rank()));
                }
            }
        }
    }
}

} // verus!
