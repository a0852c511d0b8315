use vstd::prelude::*;

use crate::error::{ErrorKind, RBMError};
use crate::labels::{encode_label, encode_labels, label_in_range, max_label, one_hot, seq_max};

verus! {

/// Each vector of `vs` has length `n`.
pub open spec fn all_len(vs: Seq<Vec<u8>>, n: nat) -> bool {
    forall|i: int| 0 <= i < vs.len() ==> (#[trigger] vs[i])@.len() == n
}

/// A batch that one training epoch can run on: examples, each with its
/// encoded label, every example of the visible size and every label of the
/// label count.
pub open spec fn batch_ok(
    batch: Seq<Vec<u8>>,
    labels: Seq<Vec<u8>>,
    visible_size: nat,
    label_count: nat,
) -> bool {
    &&& batch.len() > 0
    &&& batch.len() == labels.len()
    &&& all_len(batch, visible_size)
    &&& all_len(labels, label_count)
}

/// The extended visible vector of an example: its input followed by its
/// encoded label.
pub fn extended_visible(input: &[u8], label: &[u8]) -> (r: Vec<u8>)
    requires
        input@.len() + label@.len() <= usize::MAX,
    ensures
        r@ == input@ + label@,
{
    let mut v: Vec<u8> = Vec::new();
    let mut i: usize = 0;
    while i < input.len()
        invariant
            i <= input@.len(),
            v@ == input@.subrange(0, i as int),
        decreases input@.len() - i,
    {
        v.push(input[i]);
        i = i + 1;
        assert(v@ =~= input@.subrange(0, i as int));
    }
    let mut j: usize = 0;
    while j < label.len()
        invariant
            i == input@.len(),
            j <= label@.len(),
            v@ == input@ + label@.subrange(0, j as int),
        decreases label@.len() - j,
    {
        v.push(label[j]);
        j = j + 1;
        assert(v@ =~= input@ + label@.subrange(0, j as int));
    }
    assert(label@.subrange(0, j as int) =~= label@);
    v
}

fn lengths_are(vs: &[Vec<u8>], n: usize) -> (r: bool)
    ensures
        r == all_len(vs@, n as nat),
{
    let mut i: usize = 0;
    while i < vs.len()
        invariant
            i <= vs@.len(),
            forall|k: int| 0 <= k < i ==> (#[trigger] vs@[k])@.len() == n,
        decreases vs@.len() - i,
    {
        if vs[i].len() != n {
            return false;
        }
        i = i + 1;
    }
    true
}

/// Checks a batch before a training epoch: an empty batch is refused first,
/// then any mismatch of counts or lengths.
pub fn check_batch(
    batch: &[Vec<u8>],
    labels: &[Vec<u8>],
    visible_size: usize,
    label_count: usize,
) -> (r: Result<(), RBMError>)
    ensures
        r is Ok <==> batch_ok(batch@, labels@, visible_size as nat, label_count as nat),
        match r {
            Ok(_) => true,
            Err(e) => if batch@.len() == 0 {
                e.0 == ErrorKind::EmptyBatch
            } else {
                e.0 == ErrorKind::DimensionMismatch
            },
        },
{
    if batch.len() == 0 {
        return Err(RBMError(ErrorKind::EmptyBatch));
    }
    if batch.len() != labels.len() || !lengths_are(batch, visible_size) || !lengths_are(
        labels,
        label_count,
    ) {
        return Err(RBMError(ErrorKind::DimensionMismatch));
    }
    Ok(())
}

/// An epoch on no examples is refused, whatever the labels and sizes; and
/// the label just past the largest one cannot be sampled for.
pub proof fn lemma_boundaries_refused(
    labels: Seq<Vec<u8>>,
    visible_size: nat,
    label_count: nat,
    max_label: nat,
)
    ensures
        !batch_ok(Seq::empty(), labels, visible_size, label_count),
        !label_in_range(max_label + 1, max_label),
{
}

/// The settings of a model and of its training, each of which must be positive.
pub open spec fn config_ok(hidden_size: nat, sample_steps: nat, epoch_count: nat) -> bool {
    hidden_size > 0 && sample_steps > 0 && epoch_count > 0
}

/// Checks the hidden layer size, the sampling step count and the epoch count.
pub fn check_config(hidden_size: usize, sample_steps: usize, epoch_count: usize) -> (r: Result<
    (),
    RBMError,
>)
    ensures
        r is Ok <==> config_ok(hidden_size as nat, sample_steps as nat, epoch_count as nat),
        match r {
            Ok(_) => true,
            Err(e) => e.0 == ErrorKind::InvalidConfiguration,
        },
{
    if hidden_size == 0 || sample_steps == 0 || epoch_count == 0 {
        return Err(RBMError(ErrorKind::InvalidConfiguration));
    }
    Ok(())
}

/// The label part to clamp while sampling for `label`: refused when no
/// sampling step would run, then when the label lies outside `[1, max_label]`.
pub fn sample_labels(label: usize, max_label: usize, sample_steps: usize) -> (r: Result<
    Vec<u8>,
    RBMError,
>)
    ensures
        match r {
            Ok(v) => sample_steps > 0 && label_in_range(label as nat, max_label as nat) && v@
                == one_hot(label as nat, max_label as nat),
            Err(e) => if sample_steps == 0 {
                e.0 == ErrorKind::InvalidConfiguration
            } else {
                !label_in_range(label as nat, max_label as nat) && e.0 == ErrorKind::InvalidLabel
            },
        },
{
    if sample_steps == 0 {
        return Err(RBMError(ErrorKind::InvalidConfiguration));
    }
    encode_label(label, max_label)
}

/// A training set read from files: inputs of one length, as many labels as
/// inputs, every label at least one.
pub open spec fn training_set_ok(inputs: Seq<Vec<u8>>, labels: Seq<usize>) -> bool {
    &&& inputs.len() > 0
    &&& inputs.len() == labels.len()
    &&& all_len(inputs, inputs[0]@.len())
    &&& forall|i: int| 0 <= i < labels.len() ==> 1 <= #[trigger] labels[i]
}

/// Encodes the labels of a training set: the label count is the largest
/// label, and each label becomes its one-hot vector over `1..=max_label`.
pub fn prepare_labels(inputs: &[Vec<u8>], labels: &[usize]) -> (r: Result<
    (usize, Vec<Vec<u8>>),
    RBMError,
>)
    ensures
        r is Ok <==> training_set_ok(inputs@, labels@),
        match r {
            Ok((m, encoded)) => {
                &&& m as nat == seq_max(labels@)
                &&& encoded@.len() == labels@.len()
                &&& forall|i: int|
                    0 <= i < labels@.len() ==> (#[trigger] encoded@[i])@ == one_hot(
                        labels@[i] as nat,
                        m as nat,
                    )
            },
            Err(e) => if inputs@.len() == 0 {
                e.0 == ErrorKind::EmptyBatch
            } else if inputs@.len() != labels@.len() || !all_len(inputs@, inputs@[0]@.len()) {
                e.0 == ErrorKind::DimensionMismatch
            } else {
                e.0 == ErrorKind::InvalidLabel
            },
        },
{
    if inputs.len() == 0 {
        return Err(RBMError(ErrorKind::EmptyBatch));
    }
    if inputs.len() != labels.len() || !lengths_are(inputs, inputs[0].len()) {
        return Err(RBMError(ErrorKind::DimensionMismatch));
    }
    let mut i: usize = 0;
    while i < labels.len()
        invariant
            i <= labels@.len(),
            inputs@.len() > 0,
            inputs@.len() == labels@.len(),
            all_len(inputs@, inputs@[0]@.len()),
            forall|k: int| 0 <= k < i ==> 1 <= #[trigger] labels@[k],
        decreases labels@.len() - i,
    {
        if labels[i] == 0 {
            assert(!(1 <= labels@[i as int]));
            return Err(RBMError(ErrorKind::InvalidLabel));
        }
        i = i + 1;
    }
    let m = max_label(labels);
    Ok((m, encode_labels(labels, m)))
}

} // verus!
