//! The resumable-generator contract shared by every algorithm in the crate.
//!
//! A generator is a value-state machine: `step` yields the next batch of
//! samples or signals completion, and the abstract sequence of batches still
//! to come (`remaining`) shrinks from the front by exactly one batch per
//! pull.  Because each pull removes exactly the head batch and nothing else,
//! pulling a generator N times and then M more times yields the same total
//! sequence as pulling it N + M times in one go.

use vstd::prelude::*;

use crate::pixel::Pixel;

verus! {

/// A resumable producer of sample batches.
pub trait PixelSource: Sized {
    /// Well-formedness of the generator state; established by constructors
    /// and preserved by `step`.
    spec fn wf(&self) -> bool;

    /// The abstract sequence of batches this generator has yet to yield.
    spec fn remaining(&self) -> Seq<Seq<Pixel>>;

    /// Yield the next batch, or `None` once the sequence is exhausted.
    fn step(&mut self) -> (r: Option<Vec<Pixel>>)
        requires
            old(self).wf(),
        ensures
            final(self).wf(),
            match r {
                Some(batch) => {
                    &&& old(self).remaining().len() > 0
                    &&& batch@ == old(self).remaining()[0]
                    &&& final(self).remaining() == old(self).remaining().skip(1)
                },
                None => {
                    &&& old(self).remaining().len() == 0
                    &&& final(self).remaining() == old(self).remaining()
                },
            },
    ;
}

/// The set of every sample occurring in any batch of `batches`.
pub open spec fn samples_of(batches: Seq<Seq<Pixel>>) -> Set<Pixel> {
    Set::new(
        |p: Pixel|
            exists|i: int, j: int|
                0 <= i < batches.len() && 0 <= j < batches[i].len() && batches[i][j] == p,
    )
}

/// The first `n` batches of `r`, or all of `r` if fewer are left.
pub open spec fn prefix_of(r: Seq<Seq<Pixel>>, n: int) -> Seq<Seq<Pixel>> {
    if n <= r.len() {
        r.take(n)
    } else {
        r
    }
}

/// Pull at most `n` batches from a generator.
pub fn pull_batches<G: PixelSource>(g: &mut G, n: usize) -> (out: Vec<Vec<Pixel>>)
    requires
        old(g).wf(),
    ensures
        final(g).wf(),
        out@.map_values(|b: Vec<Pixel>| b@) == prefix_of(old(g).remaining(), n as int),
        final(g).remaining() == old(g).remaining().skip(out@.len() as int),
        out@.len() == if n <= old(g).remaining().len() {
            n as int
        } else {
            old(g).remaining().len() as int
        },
{
    let mut out: Vec<Vec<Pixel>> = Vec::new();
    let mut i: usize = 0;
    let mut exhausted = false;
    while i < n && !exhausted
        invariant
            g.wf(),
            i <= n,
            out@.len() == i <= old(g).remaining().len(),
            exhausted ==> g.remaining().len() == 0,
            out@.map_values(|b: Vec<Pixel>| b@) == prefix_of(old(g).remaining(), out@.len() as int),
            g.remaining() == old(g).remaining().skip(out@.len() as int),
        decreases n - i + (if exhausted { 0int } else { 1int }),
    {
        match g.step() {
            Some(batch) => {
                proof {
                    let r0 = old(g).remaining();
                    let k = out@.len() as int;
                    assert(r0.skip(k)[0] == r0[k]);
                    assert(r0.skip(k).skip(1) =~= r0.skip(k + 1));
                    assert(out@.push(batch).map_values(|b: Vec<Pixel>| b@) =~= r0.take(k + 1));
                }
                out.push(batch);
                i = i + 1;
            },
            None => {
                exhausted = true;
            },
        }
    }
    proof {
        assert(out@.map_values(|b: Vec<Pixel>| b@) =~= prefix_of(
            old(g).remaining(),
            out@.len() as int,
        ));
    }
    out
}

/// Pull a generator to exhaustion, returning every sample in order.
pub fn drain<G: PixelSource>(g: &mut G) -> (out: Vec<Pixel>)
    requires
        old(g).wf(),
    ensures
        final(g).wf(),
        final(g).remaining().len() == 0,
        out@ == old(g).remaining().flatten(),
{
    let mut out: Vec<Pixel> = Vec::new();
    loop
        invariant
            g.wf(),
            out@ + g.remaining().flatten() == old(g).remaining().flatten(),
        decreases g.remaining().len(),
    {
        match g.step() {
            Some(batch) => {
                proof {
                    let r = g.remaining();
                    let rold = r.insert(0, batch@);
                    assert(rold.drop_first() =~= r);
                    assert(rold.first() == batch@);
                    assert(rold.flatten() == batch@ + r.flatten());
                    assert(out@ + batch@ + r.flatten() =~= out@ + rold.flatten());
                }
                let mut b = batch;
                out.append(&mut b);
            },
            None => {
                proof {
                    assert(g.remaining().flatten() =~= Seq::<Pixel>::empty());
                    assert(out@ =~= old(g).remaining().flatten());
                }
                return out;
            },
        }
    }
}

/// The resumability law: pulling `n` batches and then `m` more batches from
/// where the first pull left off yields exactly the batches of a single pull
/// of `n + m`, with no hidden state reset in between.
pub proof fn lemma_pull_resumable(r: Seq<Seq<Pixel>>, n: int, m: int)
    requires
        0 <= n,
        0 <= m,
    ensures
        prefix_of(r, n) + prefix_of(r.skip(prefix_of(r, n).len() as int), m) == prefix_of(
            r,
            n + m,
        ),
{
    let first = prefix_of(r, n);
    let rest = r.skip(first.len() as int);
    assert(first + prefix_of(rest, m) =~= prefix_of(r, n + m));
}

} // verus!
