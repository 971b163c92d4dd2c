//! Batching of measurement samples for streaming.
//!
//! The control loop records one sample per cycle into a buffer of
//! [`BATCH_LEN`] slots; when the buffer is full its contents leave as one
//! batch and recording starts over at the first slot.

use vstd::prelude::*;

verus! {

/// The number of samples in one batch.
pub const BATCH_LEN: usize = 16;

/// A buffer that collects samples and hands them out in batches of
/// [`BATCH_LEN`], in the order in which they were recorded.
pub struct SampleBatcher<T> {
    buf: [T; 16],
    index: usize,
}

impl<T> SampleBatcher<T> {
    #[verifier::type_invariant]
    spec fn inv(self) -> bool {
        self.index < BATCH_LEN
    }

    /// The samples recorded since the last batch left, oldest first.
    pub closed spec fn pending(self) -> Seq<T> {
        self.buf@.take(self.index as int)
    }
}

impl<T> View for SampleBatcher<T> {
    type V = Seq<T>;

    open spec fn view(&self) -> Seq<T> {
        self.pending()
    }
}

/// What recording `sample` does to the pending samples `pending`: the new
/// pending samples, and the batch that leaves, if one does.
pub open spec fn record_step<T>(pending: Seq<T>, sample: T) -> (Seq<T>, Option<Seq<T>>) {
    let all = pending.push(sample);
    if all.len() == BATCH_LEN {
        (Seq::empty(), Some(all))
    } else {
        (all, None)
    }
}

/// What recording each of `samples` in turn does, starting from the
/// pending samples `pending`: the pending samples at the end, and the
/// batches that left, in order.
pub open spec fn record_all<T>(pending: Seq<T>, samples: Seq<T>) -> (Seq<T>, Seq<Seq<T>>)
    decreases samples.len(),
{
    if samples.len() == 0 {
        (pending, Seq::empty())
    } else {
        let (p, batches) = record_all(pending, samples.drop_last());
        let (q, out) = record_step(p, samples.last());
        match out {
            Some(b) => (q, batches.push(b)),
            None => (q, batches),
        }
    }
}

/// No sample is lost, duplicated or reordered: the batches that leave,
/// followed by the samples still pending, are the samples that were pending
/// followed by those recorded. Every batch holds exactly [`BATCH_LEN`]
/// samples, fewer than [`BATCH_LEN`] stay pending, and one batch leaves for
/// each [`BATCH_LEN`] samples.
pub proof fn lemma_batches_preserve_samples<T>(pending: Seq<T>, samples: Seq<T>)
    requires
        pending.len() < BATCH_LEN,
    ensures
        ({
            let (rest, batches) = record_all(pending, samples);
            &&& batches.flatten() + rest == pending + samples
            &&& forall|i: int| 0 <= i < batches.len() ==> (#[trigger] batches[i]).len() == BATCH_LEN
            &&& rest.len() < BATCH_LEN
            &&& batches.len() * BATCH_LEN + rest.len() == pending.len() + samples.len()
        }),
    decreases samples.len(),
{
    if samples.len() == 0 {
        assert(pending + samples =~= pending);
        assert(Seq::<Seq<T>>::empty().flatten() =~= Seq::<T>::empty());
        assert(Seq::<T>::empty() + pending =~= pending);
    } else {
        let init = samples.drop_last();
        let x = samples.last();
        lemma_batches_preserve_samples(pending, init);
        let (p, batches) = record_all(pending, init);
        let (q, out) = record_step(p, x);
        assert(pending + samples =~= (pending + init).push(x));
        match out {
            Some(b) => {
                batches.lemma_flatten_push(b);
                assert(batches.push(b).flatten() + q =~= batches.flatten() + p.push(x));
                assert(batches.flatten() + p.push(x) =~= (batches.flatten() + p).push(x));
                assert forall|i: int| 0 <= i < batches.push(b).len() implies (
                #[trigger] batches.push(b)[i]).len() == BATCH_LEN by {
                    if i < batches.len() {
                        assert(batches.push(b)[i] == batches[i]);
                    }
                }
                assert(batches.push(b).len() * BATCH_LEN == batches.len() * BATCH_LEN + BATCH_LEN)
                    by (nonlinear_arith);
            },
            None => {
                assert(batches.flatten() + q =~= (batches.flatten() + p).push(x));
            },
        }
    }
}

impl<T: Copy> SampleBatcher<T> {
    /// An empty batcher; `fill` only stands in the slots not yet written.
    pub fn new(fill: T) -> (s: Self)
        ensures
            s@ == Seq::<T>::empty(),
    {
        let s = SampleBatcher { buf: [fill; 16], index: 0 };
        assert(s.pending() =~= Seq::<T>::empty());
        s
    }

    /// The number of samples recorded since the last batch left.
    pub fn len(&self) -> (n: usize)
        ensures
            n == self@.len(),
            n < BATCH_LEN,
    {
        proof {
            use_type_invariant(self);
        }
        self.index
    }

    /// Records `sample`; returns the full batch where it was the last
    /// sample of one.
    pub fn record(&mut self, sample: T) -> (batch: Option<[T; 16]>)
        ensures
            (final(self)@, match batch {
                Some(b) => Some(b@),
                None => None,
            }) == record_step(old(self)@, sample),
    {
        proof {
            use_type_invariant(&*self);
        }
        let ghost before = self@;
        let i: usize = self.index;
        self.buf[i] = sample;
        assert(self.buf@.take(i + 1) =~= before.push(sample));
        if i + 1 == BATCH_LEN {
            self.index = 0;
            assert(self.pending() =~= Seq::<T>::empty());
            Some(self.buf)
        } else {
            self.index = i + 1;
            None
        }
    }
}

} // verus!
