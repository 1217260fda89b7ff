//! Choosing some of a row of things: the candidate corners of a brush are
//! its planes taken three at a time.

use vstd::prelude::*;

verus! {

/// Each list of `lists` with `head` put before it.
pub open spec fn prefixed(head: Seq<usize>, lists: Seq<Seq<usize>>) -> Seq<Seq<usize>> {
    Seq::new(lists.len(), |j: int| head + lists[j])
}

/// The ways to choose `k` of the numbers from `left` up to, not including,
/// `n`: each way with its numbers ascending, and the ways in the order of
/// the dictionary. First come those that hold `left`, then those that do not.
pub open spec fn combos(n: usize, left: usize, k: usize) -> Seq<Seq<usize>>
    decreases k, n - left,
{
    if k == 0 {
        seq![Seq::empty()]
    } else if left >= n {
        Seq::empty()
    } else {
        prefixed(seq![left], combos(n, (left + 1) as usize, (k - 1) as usize)) + combos(
            n,
            (left + 1) as usize,
            k,
        )
    }
}

/// `c` holds `k` numbers from `left` up to, not including, `n`, ascending.
pub open spec fn is_choice(c: Seq<usize>, n: usize, left: usize, k: usize) -> bool {
    &&& c.len() == k
    &&& forall|i: int| 0 <= i < c.len() ==> left <= (#[trigger] c[i]) < n
    &&& forall|i: int, j: int| 0 <= i < j < c.len() ==> (#[trigger] c[i]) < (#[trigger] c[j])
}

/// Every list of `combos` is a choice of `k` numbers.
pub proof fn combos_are_choices(n: usize, left: usize, k: usize)
    ensures
        forall|j: int|
            0 <= j < combos(n, left, k).len() ==> is_choice(
                #[trigger] combos(n, left, k)[j],
                n,
                left,
                k,
            ),
    decreases k, n - left,
{
    if k > 0 && left < n {
        let with = combos(n, (left + 1) as usize, (k - 1) as usize);
        let without = combos(n, (left + 1) as usize, k);
        combos_are_choices(n, (left + 1) as usize, (k - 1) as usize);
        combos_are_choices(n, (left + 1) as usize, k);
        assert forall|j: int| 0 <= j < combos(n, left, k).len() implies is_choice(
            #[trigger] combos(n, left, k)[j],
            n,
            left,
            k,
        ) by {
            let c = combos(n, left, k)[j];
            if j < with.len() {
                let tail = with[j];
                assert(is_choice(tail, n, (left + 1) as usize, (k - 1) as usize));
                assert(c == seq![left] + tail);
                assert forall|a: int, b: int| 0 <= a < b < c.len() implies (#[trigger] c[a]) < (
                #[trigger] c[b]) by {
                    assert(c[b] == tail[b - 1]);
                    if a > 0 {
                        assert(c[a] == tail[a - 1]);
                    }
                }
                assert forall|a: int| 0 <= a < c.len() implies left <= (#[trigger] c[a]) < n by {
                    if a > 0 {
                        assert(c[a] == tail[a - 1]);
                    }
                }
            } else {
                assert(c == without[j - with.len()]);
                assert(is_choice(c, n, (left + 1) as usize, k));
            }
        }
    }
}

/// Every choice of `k` numbers is a list of `combos`.
pub proof fn choices_are_combos(c: Seq<usize>, n: usize, left: usize, k: usize)
    requires
        is_choice(c, n, left, k),
    ensures
        exists|j: int| 0 <= j < combos(n, left, k).len() && #[trigger] combos(n, left, k)[j] == c,
    decreases k, n - left,
{
    if k == 0 {
        assert(c =~= Seq::empty());
        assert(combos(n, left, k)[0] == c);
    } else {
        assert(left <= c[0] < n);
        let with = combos(n, (left + 1) as usize, (k - 1) as usize);
        let without = combos(n, (left + 1) as usize, k);
        if c[0] == left {
            let tail = c.skip(1);
            assert forall|i: int| 0 <= i < tail.len() implies left + 1 <= (#[trigger] tail[i])
                < n by {
                assert(c[0] < c[i + 1]);
            }
            assert(is_choice(tail, n, (left + 1) as usize, (k - 1) as usize));
            choices_are_combos(tail, n, (left + 1) as usize, (k - 1) as usize);
            let j = choose|j: int| 0 <= j < with.len() && #[trigger] with[j] == tail;
            assert(seq![left] + tail =~= c);
            assert(combos(n, left, k)[j] == c);
        } else {
            assert forall|i: int| 0 <= i < c.len() implies left + 1 <= (#[trigger] c[i]) < n by {
                if i > 0 {
                    assert(c[0] < c[i]);
                }
            }
            assert(is_choice(c, n, (left + 1) as usize, k));
            choices_are_combos(c, n, (left + 1) as usize, k);
            let j = choose|j: int| 0 <= j < without.len() && #[trigger] without[j] == c;
            assert(combos(n, left, k)[with.len() + j] == c);
        }
    }
}

/// The views of the lists of a list.
pub open spec fn lists(res: Seq<Vec<usize>>) -> Seq<Seq<usize>> {
    Seq::new(res.len(), |j: int| res[j]@)
}

fn copy_of(tmp: &Vec<usize>) -> (copy: Vec<usize>)
    ensures
        copy@ == tmp@,
{
    let mut copy: Vec<usize> = Vec::new();
    let mut i: usize = 0;
    while i < tmp.len()
        invariant
            i <= tmp@.len(),
            copy@ == tmp@.take(i as int),
        decreases tmp@.len() - i,
    {
        copy.push(tmp[i]);
        assert(tmp@.take(i + 1) =~= tmp@.take(i as int).push(tmp@[i as int]));
        i += 1;
    }
    assert(tmp@.take(tmp@.len() as int) =~= tmp@);
    copy
}

/// Adds to `res` every way to choose `k` of the numbers from `left` up to,
/// not including, `n`, each after what `tmp` holds. `tmp` is used on the way
/// and left as it was.
pub fn combs_util(
    res: &mut Vec<Vec<usize>>,
    tmp: &mut Vec<usize>,
    n: usize,
    left: usize,
    k: usize,
)
    ensures
        lists(final(res)@) == lists(old(res)@) + prefixed(old(tmp)@, combos(n, left, k)),
        final(tmp)@ == old(tmp)@,
    decreases k,
{
    if k == 0 {
        res.push(copy_of(tmp));
        assert(lists(res@) =~= lists(old(res)@) + prefixed(old(tmp)@, combos(n, left, k)));
        return ;
    }
    let mut i: usize = left;
    if left >= n {
        assert(lists(res@) =~= lists(old(res)@) + prefixed(old(tmp)@, combos(n, left, k)));
        return ;
    }
    while i < n
        invariant
            k > 0,
            left <= i <= n,
            tmp@ == old(tmp)@,
            lists(res@) + prefixed(old(tmp)@, combos(n, i, k)) == lists(old(res)@) + prefixed(
                old(tmp)@,
                combos(n, left, k),
            ),
        decreases n - i,
    {
        let ghost before = lists(res@);
        tmp.push(i);
        combs_util(res, tmp, n, i + 1, k - 1);
        tmp.pop();
        proof {
            let head = old(tmp)@;
            let with = combos(n, (i + 1) as usize, (k - 1) as usize);
            let without = combos(n, (i + 1) as usize, k);
            assert(tmp@ =~= head);
            assert(prefixed(head.push(i), with) =~= prefixed(head, prefixed(seq![i], with))) by {
                assert forall|j: int| 0 <= j < with.len() implies head.push(i) + with[j] == head
                    + (seq![i] + with[j]) by {
                    assert(head.push(i) + with[j] =~= head + (seq![i] + with[j]));
                }
            }
            assert(prefixed(head, combos(n, i, k)) =~= prefixed(head, prefixed(seq![i], with))
                + prefixed(head, without));
            assert(lists(res@) + prefixed(head, without) =~= before + prefixed(
                head,
                combos(n, i, k),
            ));
        }
        i += 1;
    }
    assert(lists(res@) =~= lists(old(res)@) + prefixed(old(tmp)@, combos(n, left, k))) by {
        assert(prefixed(old(tmp)@, combos(n, n, k)) =~= Seq::<Seq<usize>>::empty());
    }
}

/// A row of things of which some can be chosen.
pub trait ArrayExt<'a, T: 'a> where T: Sized {
    /// The things, in their order.
    spec fn items(&self) -> Seq<T>;

    /// Every way to choose `size` of the things: each way with the things in
    /// the order of the row, and the ways in the order of `combos`.
    fn combs(&'a self, size: usize) -> (r: Vec<Vec<&'a T>>)
        ensures
            r@.len() == combos(self.items().len() as usize, 0, size).len(),
            forall|j: int|
                0 <= j < r@.len() ==> (#[trigger] r@[j])@.len() == size,
            forall|j: int, i: int|
                0 <= j < r@.len() && 0 <= i < size ==> *(#[trigger] r@[j]@[i]) == self.items()[combos(
                    self.items().len() as usize,
                    0,
                    size,
                )[j][i] as int],
    ;
}

impl<'a, T: 'a> ArrayExt<'a, T> for [T] {
    open spec fn items(&self) -> Seq<T> {
        self@
    }

    fn combs(&'a self, size: usize) -> (r: Vec<Vec<&'a T>>) {
        let mut combs: Vec<Vec<usize>> = Vec::new();
        let mut tmp: Vec<usize> = Vec::new();
        let n = self.len();
        combs_util(&mut combs, &mut tmp, n, 0, size);
        let ghost all = combos(n, 0, size);
        proof {
            combos_are_choices(n, 0, size);
            assert(prefixed(Seq::empty(), all) =~= all) by {
                assert forall|j: int| 0 <= j < all.len() implies Seq::<usize>::empty() + all[j]
                    == all[j] by {
                    assert(Seq::<usize>::empty() + all[j] =~= all[j]);
                }
            }
            assert(lists(combs@) =~= all);
        }
        let mut res: Vec<Vec<&'a T>> = Vec::new();
        let mut j: usize = 0;
        while j < combs.len()
            invariant
                n == self@.len(),
                all == combos(n, 0, size),
                lists(combs@) == all,
                forall|c: int| 0 <= c < all.len() ==> is_choice(#[trigger] all[c], n, 0, size),
                j <= combs@.len(),
                res@.len() == j,
                forall|c: int| 0 <= c < j ==> (#[trigger] res@[c])@.len() == size,
                forall|c: int, i: int|
                    0 <= c < j && 0 <= i < size ==> *(#[trigger] res@[c]@[i]) == self@[all[c][i] as int],
            decreases combs@.len() - j,
        {
            let comb = &combs[j];
            assert(comb@ == lists(combs@)[j as int]);
            assert(is_choice(all[j as int], n, 0, size));
            let mut row: Vec<&'a T> = Vec::new();
            let mut i: usize = 0;
            while i < comb.len()
                invariant
                    n == self@.len(),
                    is_choice(comb@, n, 0, size),
                    i <= comb@.len(),
                    row@.len() == i,
                    forall|h: int| 0 <= h < i ==> *(#[trigger] row@[h]) == self@[comb@[h] as int],
                decreases comb@.len() - i,
            {
                row.push(&self[comb[i]]);
                i += 1;
            }
            res.push(row);
            j += 1;
        }
        res
    }
}

/// Every way to choose three of the first `n` numbers, as `combos` lists
/// them: the three faces of each candidate corner of a brush of `n` faces.
pub fn triples(n: usize) -> (r: Vec<[usize; 3]>)
    ensures
        r@.len() == combos(n, 0, 3).len(),
        forall|j: int| 0 <= j < r@.len() ==> (#[trigger] r@[j])@ == combos(n, 0, 3)[j],
        forall|j: int| 0 <= j < r@.len() ==> (#[trigger] r@[j])[0] < r@[j][1] < r@[j][2] < n,
{
    let mut combs: Vec<Vec<usize>> = Vec::new();
    let mut tmp: Vec<usize> = Vec::new();
    combs_util(&mut combs, &mut tmp, n, 0, 3);
    let ghost all = combos(n, 0, 3);
    proof {
        combos_are_choices(n, 0, 3);
        assert(prefixed(Seq::empty(), all) =~= all) by {
            assert forall|j: int| 0 <= j < all.len() implies Seq::<usize>::empty() + all[j]
                == all[j] by {
                assert(Seq::<usize>::empty() + all[j] =~= all[j]);
            }
        }
        assert(lists(combs@) =~= all);
    }
    let mut r: Vec<[usize; 3]> = Vec::new();
    let mut j: usize = 0;
    while j < combs.len()
        invariant
            all == combos(n, 0, 3),
            lists(combs@) == all,
            forall|c: int| 0 <= c < all.len() ==> is_choice(#[trigger] all[c], n, 0, 3),
            j <= combs@.len(),
            r@.len() == j,
            forall|c: int| 0 <= c < j ==> (#[trigger] r@[c])@ == all[c],
            forall|c: int| 0 <= c < j ==> (#[trigger] r@[c])[0] < r@[c][1] < r@[c][2] < n,
        decreases combs@.len() - j,
    {
        let comb = &combs[j];
        assert(comb@ == lists(combs@)[j as int]);
        assert(is_choice(all[j as int], n, 0, 3));
        let three = [comb[0], comb[1], comb[2]];
        assert(three@ =~= comb@);
        r.push(three);
        j += 1;
    }
    r
}

} // verus!
