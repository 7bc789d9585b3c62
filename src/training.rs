use crate::dataset::{CustomDataset, FileItem};
use crate::split::{shuffle_items, shuffled_items, split_dataset, train_size_spec};
use vstd::prelude::*;

verus! {

/// Run parameters other than the optimizer's.
#[derive(Clone, Copy, Debug, PartialEq, Eq, Structural)]
pub struct CustomTrainingConfig {
    pub num_epochs: usize,
    pub batch_size: usize,
    pub num_workers: usize,
    pub seed: u64,
}

impl CustomTrainingConfig {
    /// The defaults: 20 epochs, batches of 64, 4 workers, seed 12.
    pub fn new() -> (r: CustomTrainingConfig)
        ensures
            r.num_epochs == 20,
            r.batch_size == 64,
            r.num_workers == 4,
            r.seed == 12,
    {
        CustomTrainingConfig { num_epochs: 20, batch_size: 64, num_workers: 4, seed: 12 }
    }
}

/// Shuffles the items with the run's seed, then splits them into a training set (the
/// first 80%, rounded down) and a validation set (the rest).
pub fn prepare_datasets(seed: u64, items: &Vec<FileItem>) -> (r: (CustomDataset, CustomDataset))
    ensures
        ({
            let s = shuffled_items(seed, items@);
            let t = train_size_spec(items@.len() as int);
            &&& r.0.items@ == s.subrange(0, t)
            &&& r.1.items@ == s.subrange(t, s.len() as int)
        }),
        (r.0.items@ + r.1.items@).to_multiset() == items@.to_multiset(),
{
    let shuffled = shuffle_items(seed, items);
    proof {
        crate::split::lemma_split_covers(shuffled@);
    }
    let (train, valid) = split_dataset(shuffled);
    (CustomDataset::new(train), CustomDataset::new(valid))
}

/// Position of the best loss of a non-empty history: the epoch of the last strict
/// improvement, which is the first epoch that reached the minimum.
pub open spec fn best_index(h: Seq<u64>) -> int
    decreases h.len(),
{
    if h.len() <= 1 {
        0
    } else {
        let b = best_index(h.drop_last());
        if h.last() < h[b] {
            h.len() - 1
        } else {
            b
        }
    }
}

/// Epochs since the last strict improvement of a non-empty history.
pub open spec fn stale_epochs(h: Seq<u64>) -> int {
    h.len() - 1 - best_index(h)
}

proof fn lemma_best_index_bounds(h: Seq<u64>)
    requires
        h.len() > 0,
    ensures
        0 <= best_index(h) < h.len(),
    decreases h.len(),
{
    if h.len() > 1 {
        lemma_best_index_bounds(h.drop_last());
    }
}

/// Stops training once the validation loss has not strictly decreased for `patience`
/// consecutive epochs. Losses are given as keys whose order is the order of the losses.
pub struct EarlyStopping {
    patience: usize,
    seen: usize,
    best_loss: u64,
    best_epoch: usize,
    history: Ghost<Seq<u64>>,
}

impl EarlyStopping {
    /// The losses observed so far, one per epoch.
    pub closed spec fn history(&self) -> Seq<u64> {
        self.history@
    }

    pub closed spec fn patience_spec(&self) -> usize {
        self.patience
    }

    pub closed spec fn wf(&self) -> bool {
        &&& self.seen == self.history@.len()
        &&& self.seen > 0 ==> {
            &&& self.best_epoch == best_index(self.history@)
            &&& self.best_loss == self.history@[best_index(self.history@)]
        }
    }

    pub fn new(patience: usize) -> (r: EarlyStopping)
        ensures
            r.wf(),
            r.history() == Seq::<u64>::empty(),
            r.patience_spec() == patience,
    {
        EarlyStopping {
            patience,
            seen: 0,
            best_loss: 0,
            best_epoch: 0,
            history: Ghost(Seq::empty()),
        }
    }

    /// Records the validation loss of one more epoch; returns whether training stops now.
    pub fn observe(&mut self, loss: u64) -> (stop: bool)
        requires
            old(self).wf(),
            old(self).history().len() < usize::MAX,
        ensures
            final(self).wf(),
            final(self).history() == old(self).history().push(loss),
            final(self).patience_spec() == old(self).patience_spec(),
            stop == (stale_epochs(final(self).history()) >= old(self).patience_spec()),
    {
        let ghost h = self.history@.push(loss);
        assert(h.drop_last() =~= self.history@);
        proof {
            if self.seen > 0 {
                lemma_best_index_bounds(self.history@);
                let b = best_index(self.history@);
                assert(h[b] == self.history@[b]);
                assert(best_index(h) == if loss < h[b] { h.len() - 1 } else { b });
            } else {
                assert(best_index(h) == 0);
            }
        }
        if self.seen == 0 || loss < self.best_loss {
            self.best_loss = loss;
            self.best_epoch = self.seen;
        }
        self.seen = self.seen + 1;
        self.history = Ghost(h);
        proof {
            lemma_best_index_bounds(h);
        }
        self.seen - 1 - self.best_epoch >= self.patience
    }

    /// The epoch (counted from 0) of the best loss so far.
    pub fn best_epoch(&self) -> (r: usize)
        requires
            self.wf(),
            self.history().len() > 0,
        ensures
            r == best_index(self.history()),
    {
        self.best_epoch
    }

    /// Number of epochs observed.
    pub fn epochs(&self) -> (r: usize)
        requires
            self.wf(),
        ensures
            r == self.history().len(),
    {
        self.seen
    }
}

} // verus!
