use crate::dataset::FileItem;
use vstd::multiset::*;
use vstd::prelude::*;
use vstd::seq_lib::*;

verus! {

/// The order in which fastrand's generator, seeded with `seed`, shuffles `s`.
pub uninterp spec fn shuffled_with(seed: u64, s: Seq<usize>) -> Seq<usize>;

/// Relies on fastrand::Rng::with_seed and Rng::shuffle: a generator seeded with `seed`
/// permutes the slice by swaps, so its elements are kept, and the result depends on the
/// seed and the slice alone.
#[verifier::external_body]
fn seeded_shuffle(seed: u64, v: &mut Vec<usize>)
    ensures
        final(v)@ == shuffled_with(seed, old(v)@),
        final(v)@.to_multiset() == old(v)@.to_multiset(),
        final(v)@.len() == old(v)@.len(),
{
    fastrand::Rng::with_seed(seed).shuffle(v.as_mut_slice())
}

/// The items at the given positions, in that order.
pub open spec fn pick(items: Seq<FileItem>, p: Seq<usize>) -> Seq<FileItem> {
    Seq::new(p.len(), |i: int| items[p[i] as int])
}

/// Two lists of positions that hold the same positions, counted with multiplicity, pick
/// the same items, counted with multiplicity.
proof fn lemma_pick_multiset(items: Seq<FileItem>, p: Seq<usize>, q: Seq<usize>)
    requires
        p.to_multiset() == q.to_multiset(),
        forall|i: int| 0 <= i < q.len() ==> q[i] < items.len(),
    ensures
        pick(items, p).to_multiset() == pick(items, q).to_multiset(),
    decreases p.len(),
{
    broadcast use group_multiset_axioms, group_to_multiset_ensures;

    to_multiset_len(p);
    to_multiset_len(q);
    if p.len() == 0 {
        assert(pick(items, p) =~= pick(items, q));
    } else {
        let x = p.last();
        let pp = p.drop_last();
        assert(p == pp.push(x));
        to_multiset_build(pp, x);
        assert(p.to_multiset().count(x) > 0);
        assert(q.contains(x));
        let j = choose|j: int| 0 <= j < q.len() && q[j] == x;
        let qq = q.remove(j);
        to_multiset_remove(q, j);
        assert(pp.to_multiset() =~= qq.to_multiset());
        assert forall|i: int| 0 <= i < qq.len() implies qq[i] < items.len() by {
            if i < j {
                assert(qq[i] == q[i]);
            } else {
                assert(qq[i] == q[i + 1]);
            }
        }
        lemma_pick_multiset(items, pp, qq);
        let y = items[x as int];
        assert(pick(items, p) =~= pick(items, pp).push(y));
        to_multiset_build(pick(items, pp), y);
        assert(pick(items, qq) =~= pick(items, q).remove(j));
        to_multiset_remove(pick(items, q), j);
        assert(pick(items, q)[j] == y);
        assert(pick(items, q).to_multiset().count(y) > 0) by {
            assert(pick(items, q).contains(y));
        }
        assert(pick(items, p).to_multiset() =~= pick(items, q).to_multiset());
    }
}

/// Size of the training part of `total` items: the floor of 80% of it.
pub open spec fn train_size_spec(total: int) -> int {
    (total * 4) / 5
}

/// The positions `0..n` in order.
pub open spec fn identity(n: nat) -> Seq<usize> {
    Seq::new(n, |i: int| i as usize)
}

/// The items in the order that the seeded shuffle of their positions gives.
pub open spec fn shuffled_items(seed: u64, items: Seq<FileItem>) -> Seq<FileItem> {
    let p = shuffled_with(seed, identity(items.len()));
    Seq::new(items.len(), |i: int| items[p[i] as int])
}

/// Sizes of the training and validation parts of `total` items: the training part is
/// the floor of 80% of them, the validation part the rest.
pub fn split_sizes(total: usize) -> (r: (usize, usize))
    ensures
        r.0 == train_size_spec(total as int),
        r.0 + r.1 == total,
{
    let q = total / 5;
    let m = total % 5;
    let train = q * 4 + m * 4 / 5;
    assert(train as int == (total as int * 4) / 5) by (nonlinear_arith)
        requires
            q == total / 5,
            m == total % 5,
            train == q * 4 + m * 4 / 5,
    ;
    (train, total - train)
}

/// Splits the items into the first 80% (rounded down), for training, and the rest,
/// for validation.
pub fn split_dataset(items: Vec<FileItem>) -> (r: (Vec<FileItem>, Vec<FileItem>))
    ensures
        r.0@ == items@.subrange(0, train_size_spec(items@.len() as int)),
        r.1@ == items@.subrange(train_size_spec(items@.len() as int), items@.len() as int),
{
    let (train, _valid) = split_sizes(items.len());
    let mut first = items;
    let second = first.split_off(train);
    (first, second)
}

/// Reorders the items by a shuffle of their positions with a generator seeded by `seed`.
pub fn shuffle_items(seed: u64, items: &Vec<FileItem>) -> (r: Vec<FileItem>)
    ensures
        r@ == shuffled_items(seed, items@),
        r@.len() == items@.len(),
        r@.to_multiset() == items@.to_multiset(),
        forall|j: int| 0 <= j < items@.len() ==> r@.contains(#[trigger] items@[j]),
{
    let n = items.len();
    let mut order: Vec<usize> = Vec::new();
    let mut i: usize = 0;
    while i < n
        invariant
            0 <= i <= n,
            n == items@.len(),
            order@ == identity(i as nat),
        decreases n - i,
    {
        order.push(i);
        assert(order@ =~= identity((i + 1) as nat));
        i += 1;
    }
    let ghost before = order@;
    seeded_shuffle(seed, &mut order);
    proof {
        before.to_multiset_ensures();
        order@.to_multiset_ensures();
        assert forall|k: int| 0 <= k < n implies order@[k] < n by {
            let x = order@[k];
            assert(order@.contains(x));
            assert(order@.to_multiset().count(x) > 0);
            assert(before.to_multiset().count(x) > 0);
            assert(before.contains(x));
            let j = choose|j: int| 0 <= j < before.len() && before[j] == x;
            assert(before[j] == j as usize);
        }
        assert forall|j: int| 0 <= j < n implies #[trigger] order@.contains(j as usize) by {
            assert(before[j] == j as usize);
            assert(before.contains(j as usize));
            assert(before.to_multiset().count(j as usize) > 0);
            assert(order@.to_multiset().count(j as usize) > 0);
        }
    }
    let mut out: Vec<FileItem> = Vec::new();
    let mut k: usize = 0;
    while k < n
        invariant
            0 <= k <= n,
            n == items@.len(),
            order@ == shuffled_with(seed, identity(n as nat)),
            order@.len() == n,
            forall|t: int| 0 <= t < n ==> order@[t] < n,
            forall|j: int| 0 <= j < n ==> #[trigger] order@.contains(j as usize),
            out@ == shuffled_items(seed, items@).subrange(0, k as int),
        decreases n - k,
    {
        let it = &items[order[k]];
        out.push(FileItem { image_path: it.image_path.clone(), label: it.label });
        assert(out@ =~= shuffled_items(seed, items@).subrange(0, k + 1));
        k += 1;
    }
    assert(out@ =~= shuffled_items(seed, items@));
    assert forall|j: int| 0 <= j < items@.len() implies out@.contains(#[trigger] items@[j]) by {
        assert(order@.contains(j as usize));
        let i = choose|i: int| 0 <= i < order@.len() && order@[i] == j as usize;
        assert(0 <= order@[i] < n);
        assert(out@[i] == shuffled_items(seed, items@)[i]);
        assert(out@[i] == items@[order@[i] as int]);
        assert(order@[i] as int == j);
        assert(out@[i] == items@[j]);
    }
    proof {
        assert forall|t: int| 0 <= t < before.len() implies before[t] < items@.len() by {}
        lemma_pick_multiset(items@, order@, before);
        assert(out@ =~= pick(items@, order@));
        assert(pick(items@, before) =~= items@);
    }
    out
}

/// Shuffling is reproducible: the same seed and the same items give the same order.
pub proof fn lemma_shuffle_reproducible(seed: u64, a: Seq<FileItem>, b: Seq<FileItem>)
    requires
        a == b,
    ensures
        shuffled_items(seed, a) == shuffled_items(seed, b),
{
}

/// The two parts of a split hold every item once, in order: together they are the
/// whole list, and the training part holds the floor of 80% of it.
pub proof fn lemma_split_covers(items: Seq<FileItem>)
    ensures
        items.subrange(0, train_size_spec(items.len() as int)) + items.subrange(
            train_size_spec(items.len() as int),
            items.len() as int,
        ) == items,
        0 <= train_size_spec(items.len() as int) <= items.len(),
{
    let t = train_size_spec(items.len() as int);
    assert(0 <= t <= items.len()) by (nonlinear_arith)
        requires
            t == (items.len() as int * 4) / 5,
    ;
    assert(items.subrange(0, t) + items.subrange(t, items.len() as int) =~= items);
}

} // verus!
