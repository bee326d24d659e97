//! Sliding-window k-mer producer: yields, in left-to-right order, the
//! contiguous k-length substrings of a sequence.
use vstd::prelude::*;

verus! {

use vstd::string::StrSliceExecFns;

/// Effective window size: `k` itself, except that `k == 0` or `k` beyond
/// the sequence length falls back to the whole sequence's length.
pub open spec fn effective_k(len: nat, k: nat) -> nat {
    if k == 0 || k > len {
        len
    } else {
        k
    }
}

/// Number of windows the producer yields: the sequence length minus the
/// effective window size.
pub open spec fn window_count(len: nat, k: nat) -> nat {
    (len - effective_k(len, k)) as nat
}

/// The ordered sequence of all yielded windows of `s`.
pub open spec fn spec_windows(s: Seq<char>, k: nat) -> Seq<Seq<char>> {
    Seq::new(
        window_count(s.len(), k),
        |i: int| s.subrange(i, i + effective_k(s.len(), k) as int),
    )
}

/// All windows of `seq` of length `k`, in left-to-right order, as a vector.
pub fn k_mer<'a>(seq: &'a str, k: usize) -> (r: Vec<&'a str>)
    ensures
        r@.len() == window_count(seq@.len(), k as nat),
        forall|i: int| 0 <= i < r@.len() ==> (#[trigger] r@[i])@ == spec_windows(
            seq@,
            k as nat,
        )[i],
        forall|i: int| 0 <= i < r@.len() ==> (#[trigger] r@[i])@.len() == effective_k(
            seq@.len(),
            k as nat,
        ),
{
    let l = seq.unicode_len();
    if k == 0 || k > l {
        return Vec::new();
    }
    let mut arr: Vec<&'a str> = Vec::new();
    let mut i: usize = 0;
    while i < l - k
        invariant
            1 <= k <= l,
            l as nat == seq@.len(),
            i <= l - k,
            arr@.len() == i,
            forall|j: int| 0 <= j < i ==> (#[trigger] arr@[j])@ == seq@.subrange(j, j + k as int),
        decreases l - k - i,
    {
        let w = seq.substring_char(i, i + k);
        arr.push(w);
        i += 1;
    }
    arr
}

/// A lazy, restartable producer of the windows of one sequence. Each call
/// of `next` yields the next window; `reset` starts over.
#[derive(Clone, Copy)]
pub struct KmerWindows<'a> {
    seq: &'a str,
    k: usize,
    len: usize,
    idx: usize,
}

impl<'a> KmerWindows<'a> {
    /// The producer's window size is effective and its cursor in bounds.
    pub closed spec fn wf(self) -> bool {
        &&& self.len as nat == self.seq@.len()
        &&& self.k as nat == effective_k(self.len as nat, self.k as nat)
        &&& self.idx as nat <= window_count(self.len as nat, self.k as nat)
    }

    /// All windows this producer yields over a full pass.
    pub closed spec fn windows(self) -> Seq<Seq<char>> {
        spec_windows(self.seq@, self.k as nat)
    }

    /// How many windows have been yielded since the start or the last reset.
    pub closed spec fn position(self) -> nat {
        self.idx as nat
    }

    /// Number of windows of a full pass.
    pub fn count(&self) -> (n: usize)
        requires
            self.wf(),
        ensures
            n as nat == self.windows().len(),
    {
        self.len - self.k
    }

    /// The next window, or `None` after the last one.
    pub fn next(&mut self) -> (r: Option<&'a str>)
        requires
            old(self).wf(),
        ensures
            final(self).wf(),
            final(self).windows() == old(self).windows(),
            old(self).position() < old(self).windows().len() ==> (r matches Some(w)
                && w@ == old(self).windows()[old(self).position() as int]
                && final(self).position() == old(self).position() + 1),
            old(self).position() >= old(self).windows().len() ==> (r is None
                && final(self).position() == old(self).position()),
    {
        if self.idx < self.len - self.k {
            let w = self.seq.substring_char(self.idx, self.idx + self.k);
            self.idx = self.idx + 1;
            Some(w)
        } else {
            None
        }
    }

    /// Start a fresh, independent pass over the same windows.
    pub fn reset(&mut self)
        requires
            old(self).wf(),
        ensures
            final(self).wf(),
            final(self).windows() == old(self).windows(),
            final(self).position() == 0,
    {
        self.idx = 0;
    }
}

/// The lazy counterpart of `k_mer`: a producer over the same windows,
/// starting before the first one.
pub fn k_mer_lazy<'a>(seq: &'a str, k: usize) -> (it: KmerWindows<'a>)
    ensures
        it.wf(),
        it.windows() == spec_windows(seq@, k as nat),
        it.position() == 0,
{
    let l = seq.unicode_len();
    let ke = if k == 0 || k > l {
        l
    } else {
        k
    };
    let it = KmerWindows { seq, k: ke, len: l, idx: 0 };
    proof {
        assert(spec_windows(seq@, ke as nat) =~= spec_windows(seq@, k as nat));
    }
    it
}

} // verus!
