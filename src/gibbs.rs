use vstd::prelude::*;

use crate::error::{ErrorKind, RBMError};

verus! {

/// The first `visible_size` entries of an extended visible state: the raw
/// visible units, without the label units.
pub open spec fn visible_of<T>(v: Seq<T>, visible_size: nat) -> Seq<T> {
    v.subrange(0, visible_size as int)
}

/// The state that a Gibbs step hands on: the raw visible units of a
/// reconstruction, followed by the clamped labels in place of the
/// reconstructed ones.
pub open spec fn clamped<T>(reconstruction: Seq<T>, labels: Seq<T>, visible_size: nat) -> Seq<T> {
    visible_of(reconstruction, visible_size) + labels
}

/// Replaces the label units of a reconstruction by the clamped labels.
pub fn clamp_labels<T: Copy>(reconstruction: &[T], labels: &[T], visible_size: usize) -> (r: Vec<T>)
    requires
        visible_size <= reconstruction@.len(),
        visible_size + labels@.len() <= usize::MAX,
    ensures
        r@ == clamped(reconstruction@, labels@, visible_size as nat),
{
    let mut v: Vec<T> = Vec::new();
    let mut i: usize = 0;
    while i < visible_size
        invariant
            i <= visible_size <= reconstruction@.len(),
            v@ == reconstruction@.subrange(0, i as int),
        decreases visible_size - i,
    {
        v.push(reconstruction[i]);
        i = i + 1;
        assert(v@ =~= reconstruction@.subrange(0, i as int));
    }
    let mut j: usize = 0;
    while j < labels.len()
        invariant
            i == visible_size,
            j <= labels@.len(),
            v@ == visible_of(reconstruction@, visible_size as nat) + labels@.subrange(0, j as int),
        decreases labels@.len() - j,
    {
        v.push(labels[j]);
        j = j + 1;
        assert(v@ =~= visible_of(reconstruction@, visible_size as nat) + labels@.subrange(
            0,
            j as int,
        ));
    }
    assert(labels@.subrange(0, j as int) =~= labels@);
    v
}

/// The raw visible units of an extended visible state, as a sample returns them.
pub fn visible_part<T: Copy>(v: &[T], visible_size: usize) -> (r: Vec<T>)
    requires
        visible_size <= v@.len(),
    ensures
        r@ == visible_of(v@, visible_size as nat),
{
    let mut out: Vec<T> = Vec::new();
    let mut i: usize = 0;
    while i < visible_size
        invariant
            i <= visible_size <= v@.len(),
            out@ == v@.subrange(0, i as int),
        decreases visible_size - i,
    {
        out.push(v[i]);
        i = i + 1;
        assert(out@ =~= v@.subrange(0, i as int));
    }
    out
}

/// Clamping keeps the labels exactly and in place after the visible units,
/// and the visible part of a clamped state is that of the reconstruction: a
/// sample never holds label units, and the labels never drift.
pub proof fn lemma_clamp_then_visible<T>(reconstruction: Seq<T>, labels: Seq<T>, visible_size: nat)
    requires
        visible_size <= reconstruction.len(),
    ensures
        clamped(reconstruction, labels, visible_size).len() == (visible_size + labels.len()) as int,
        clamped(reconstruction, labels, visible_size).subrange(
            visible_size as int,
            (visible_size + labels.len()) as int,
        ) == labels,
        visible_of(clamped(reconstruction, labels, visible_size), visible_size) == visible_of(
            reconstruction,
            visible_size,
        ),
{
    let c = clamped(reconstruction, labels, visible_size);
    assert(c.subrange(visible_size as int, (visible_size + labels.len()) as int) =~= labels);
    assert(visible_of(c, visible_size) =~= visible_of(reconstruction, visible_size));
}

/// `v` is an extended visible state whose label units are exactly `clamp`.
pub open spec fn label_units_are<T>(v: Seq<T>, clamp: Seq<T>, visible_size: nat) -> bool {
    v.len() == visible_size + clamp.len() && v.subrange(visible_size as int, v.len() as int)
        == clamp
}

/// Generates a sample by a Gibbs chain of `steps` steps. The chain starts
/// from `noise` as the raw visible units and `clamp` as the label units;
/// each step hands the state to `reconstruct` (visible to hidden and back)
/// and clamps the label units of the result again. The sample is the raw
/// visible part of the last state. No steps is a configuration error, and a
/// reconstruction shorter than the visible layer a dimension error.
pub fn gibbs_sample<T: Copy, F: Fn(&Vec<T>) -> Vec<T>>(
    noise: &[T],
    clamp: &[T],
    steps: usize,
    reconstruct: F,
) -> (r: Result<Vec<T>, RBMError>)
    requires
        noise@.len() + clamp@.len() <= usize::MAX,
        forall|v: &Vec<T>| #[trigger] reconstruct.requires((v,)),
    ensures
        match r {
            Ok(s) => {
                &&& steps > 0
                &&& s@.len() == noise@.len()
                &&& exists|v: Vec<T>, out: Vec<T>|
                    #[trigger] reconstruct.ensures((&v,), out) && label_units_are(
                        v@,
                        clamp@,
                        noise@.len(),
                    ) && out@.len() >= noise@.len() && s@ == visible_of(out@, noise@.len())
            },
            Err(e) => if steps == 0 {
                e.0 == ErrorKind::InvalidConfiguration
            } else {
                e.0 == ErrorKind::DimensionMismatch && exists|v: Vec<T>, out: Vec<T>|
                    #[trigger] reconstruct.ensures((&v,), out) && label_units_are(
                        v@,
                        clamp@,
                        noise@.len(),
                    ) && out@.len() < noise@.len()
            },
        },
{
    if steps == 0 {
        return Err(RBMError(ErrorKind::InvalidConfiguration));
    }
    let n = noise.len();
    let mut v = clamp_labels(noise, clamp, n);
    proof {
        lemma_clamp_then_visible(noise@, clamp@, n as nat);
        assert(visible_of(noise@, n as nat) =~= noise@);
    }
    let ghost mut last_in: Vec<T> = v;
    let ghost mut last_out: Vec<T> = v;
    let mut k: usize = 0;
    while k < steps
        invariant
            0 <= k <= steps,
            n == noise@.len(),
            n + clamp@.len() <= usize::MAX,
            forall|x: &Vec<T>| #[trigger] reconstruct.requires((x,)),
            label_units_are(v@, clamp@, n as nat),
            k > 0 ==> reconstruct.ensures((&last_in,), last_out) && label_units_are(
                last_in@,
                clamp@,
                n as nat,
            ) && last_out@.len() >= n && v@ == clamped(last_out@, clamp@, n as nat),
        decreases steps - k,
    {
        let out = reconstruct(&v);
        if out.len() < n {
            return Err(RBMError(ErrorKind::DimensionMismatch));
        }
        proof {
            last_in = v;
            last_out = out;
            lemma_clamp_then_visible(out@, clamp@, n as nat);
        }
        v = clamp_labels(&out, clamp, n);
        k = k + 1;
    }
    let s = visible_part(&v, n);
    proof {
        lemma_clamp_then_visible(last_out@, clamp@, n as nat);
    }
    Ok(s)
}

} // verus!
