use vstd::prelude::*;
use vstd::string::StringSliceAdditionalSpecFns;

use crate::decimal::{parse_unsigned, parse_unsigned_spec};
use crate::error::{ErrorKind, RBMError};

verus! {

/// The one-hot vector of `label` over the labels `1..=max_label`: position
/// `k` stands for label `k + 1`.
pub open spec fn one_hot(label: nat, max_label: nat) -> Seq<u8> {
    Seq::new(max_label, |k: int| if k + 1 == label { 1u8 } else { 0u8 })
}

/// A label that the encoding over `1..=max_label` can represent.
pub open spec fn label_in_range(label: nat, max_label: nat) -> bool {
    1 <= label <= max_label
}

/// The largest of `labels`, or zero when there are none.
pub open spec fn seq_max(labels: Seq<usize>) -> nat
    decreases labels.len(),
{
    if labels.len() == 0 {
        0
    } else {
        let m = seq_max(labels.drop_last());
        if labels.last() as nat > m {
            labels.last() as nat
        } else {
            m
        }
    }
}

/// Splits `b` at newline bytes: the non-empty lines completed so far, and the
/// text after the last newline.
pub open spec fn line_scan(b: Seq<u8>) -> (Seq<Seq<u8>>, Seq<u8>)
    decreases b.len(),
{
    if b.len() == 0 {
        (Seq::empty(), Seq::empty())
    } else {
        let (done, cur) = line_scan(b.drop_last());
        if b.last() == 10 {
            (
                if cur.len() > 0 {
                    done.push(cur)
                } else {
                    done
                },
                Seq::empty(),
            )
        } else {
            (done, cur.push(b.last()))
        }
    }
}

/// The non-empty newline-separated lines of `b`, in order.
pub open spec fn nonempty_lines(b: Seq<u8>) -> Seq<Seq<u8>> {
    let (done, cur) = line_scan(b);
    if cur.len() > 0 {
        done.push(cur)
    } else {
        done
    }
}

/// Each line parses as a `usize` literal.
pub open spec fn all_lines_parse(ls: Seq<Seq<u8>>) -> bool {
    forall|k: int| 0 <= k < ls.len() ==> (#[trigger] parse_unsigned_spec(ls[k], usize::MAX as nat)) is Some
}

/// The labels that a label file holds: one unsigned integer per non-empty
/// line, or `None` when some non-empty line is not one.
pub open spec fn label_values(b: Seq<u8>) -> Option<Seq<usize>> {
    let ls = nonempty_lines(b);
    if all_lines_parse(ls) {
        Some(Seq::new(ls.len(), |k: int| parse_unsigned_spec(ls[k], usize::MAX as nat)->0 as usize))
    } else {
        None
    }
}

/// The one-hot encoding of `label` over the labels `1..=max_label`; a label
/// outside that range gives the all-zero vector.
pub fn parse_label(label: usize, max_label: usize) -> (r: Vec<u8>)
    ensures
        r@ == one_hot(label as nat, max_label as nat),
{
    let mut v: Vec<u8> = Vec::new();
    let mut k: usize = 0;
    while k < max_label
        invariant
            k <= max_label,
            v@ == one_hot(label as nat, k as nat),
        decreases max_label - k,
    {
        v.push(if k + 1 == label { 1u8 } else { 0u8 });
        k = k + 1;
        assert(v@ =~= one_hot(label as nat, k as nat));
    }
    v
}

/// The one-hot encoding of `label`, which must lie in `[1, max_label]`.
pub fn encode_label(label: usize, max_label: usize) -> (r: Result<Vec<u8>, RBMError>)
    ensures
        match r {
            Ok(v) => label_in_range(label as nat, max_label as nat) && v@ == one_hot(
                label as nat,
                max_label as nat,
            ),
            Err(e) => !label_in_range(label as nat, max_label as nat) && e.0
                == ErrorKind::InvalidLabel,
        },
{
    if label < 1 || label > max_label {
        return Err(RBMError(ErrorKind::InvalidLabel));
    }
    Ok(parse_label(label, max_label))
}

/// The largest label of a batch, which fixes the width of the encoding.
pub fn max_label(labels: &[usize]) -> (r: usize)
    ensures
        r as nat == seq_max(labels@),
        forall|i: int| 0 <= i < labels@.len() ==> labels@[i] <= r,
        labels@.len() == 0 ==> r == 0,
        labels@.len() > 0 ==> exists|i: int| 0 <= i < labels@.len() && labels@[i] == r,
{
    let mut m: usize = 0;
    let mut i: usize = 0;
    while i < labels.len()
        invariant
            i <= labels@.len(),
            m as nat == seq_max(labels@.subrange(0, i as int)),
            forall|j: int| 0 <= j < i ==> labels@[j] <= m,
            i == 0 ==> m == 0,
            i > 0 ==> exists|j: int| 0 <= j < i && labels@[j] == m,
        decreases labels@.len() - i,
    {
        assert(labels@.subrange(0, i + 1).drop_last() =~= labels@.subrange(0, i as int));
        if labels[i] > m {
            m = labels[i];
        }
        i = i + 1;
    }
    assert(labels@.subrange(0, i as int) =~= labels@);
    m
}

/// The one-hot encoding of each label of a batch, over `1..=max_label`.
pub fn encode_labels(labels: &[usize], max_label: usize) -> (r: Vec<Vec<u8>>)
    ensures
        r@.len() == labels@.len(),
        forall|i: int| 0 <= i < labels@.len() ==> (#[trigger] r@[i])@ == one_hot(
            labels@[i] as nat,
            max_label as nat,
        ),
{
    let mut out: Vec<Vec<u8>> = Vec::new();
    let mut i: usize = 0;
    while i < labels.len()
        invariant
            i <= labels@.len(),
            out@.len() == i,
            forall|j: int| 0 <= j < i ==> (#[trigger] out@[j])@ == one_hot(
                labels@[j] as nat,
                max_label as nat,
            ),
        decreases labels@.len() - i,
    {
        out.push(parse_label(labels[i], max_label));
        i = i + 1;
    }
    out
}

proof fn lemma_line_scan_step(b: Seq<u8>, i: int)
    requires
        0 <= i < b.len(),
    ensures
        line_scan(b.subrange(0, i + 1)) == ({
            let (done, cur) = line_scan(b.subrange(0, i));
            if b[i] == 10 {
                (
                    if cur.len() > 0 {
                        done.push(cur)
                    } else {
                        done
                    },
                    Seq::<u8>::empty(),
                )
            } else {
                (done, cur.push(b[i]))
            }
        }),
{
    assert(b.subrange(0, i + 1).drop_last() =~= b.subrange(0, i));
}

/// Parses the contents of a label file: one unsigned integer per line, empty
/// lines skipped.
pub fn labels_from_file(contents: &str) -> (r: Result<Vec<usize>, RBMError>)
    ensures
        match r {
            Ok(v) => label_values(contents.spec_bytes()) == Some(v@),
            Err(e) => label_values(contents.spec_bytes()) is None && e.0
                == ErrorKind::MalformedLabels,
        },
{
    let b = contents.as_bytes();
    let ghost bs = b@;
    let mut out: Vec<usize> = Vec::new();
    let mut ok = true;
    let ghost mut bad: int = 0;
    let mut start: usize = 0;
    let mut i: usize = 0;
    while i < b.len()
        invariant
            bs == b@,
            start <= i <= bs.len(),
            line_scan(bs.subrange(0, i as int)).1 == bs.subrange(start as int, i as int),
            ok ==> out@.len() == line_scan(bs.subrange(0, i as int)).0.len(),
            ok ==> forall|k: int|
                0 <= k < out@.len() ==> parse_unsigned_spec(
                    #[trigger] line_scan(bs.subrange(0, i as int)).0[k],
                    usize::MAX as nat,
                ) == Some(out@[k] as nat),
            !ok ==> 0 <= bad < line_scan(bs.subrange(0, i as int)).0.len() && parse_unsigned_spec(
                line_scan(bs.subrange(0, i as int)).0[bad],
                usize::MAX as nat,
            ) is None,
        decreases bs.len() - i,
    {
        proof {
            lemma_line_scan_step(bs, i as int);
        }
        if b[i] == 10 {
            if i > start {
                let p = parse_unsigned(b, start, i, usize::MAX);
                match p {
                    Some(v) => {
                        if ok {
                            out.push(v);
                        }
                    },
                    None => {
                        if ok {
                            proof {
                                bad = line_scan(bs.subrange(0, i as int)).0.len() as int;
                            }
                        }
                        ok = false;
                    },
                }
            }
            start = i + 1;
        } else {
            assert(bs.subrange(start as int, i + 1) =~= bs.subrange(start as int, i as int).push(
                bs[i as int],
            ));
        }
        i = i + 1;
        assert(bs.subrange(start as int, i as int) =~= line_scan(bs.subrange(0, i as int)).1);
    }
    assert(bs.subrange(0, i as int) =~= bs);
    if i > start {
        let p = parse_unsigned(b, start, i, usize::MAX);
        match p {
            Some(v) => {
                if ok {
                    out.push(v);
                }
            },
            None => {
                if ok {
                    proof {
                        bad = line_scan(bs).0.len() as int;
                    }
                }
                ok = false;
            },
        }
    }
    if ok {
        let ghost ls = nonempty_lines(bs);
        assert(all_lines_parse(ls));
        assert(out@ =~= Seq::new(
            ls.len(),
            |k: int| parse_unsigned_spec(ls[k], usize::MAX as nat)->0 as usize,
        ));
        Ok(out)
    } else {
        proof {
            let ls = nonempty_lines(bs);
            assert(parse_unsigned_spec(ls[bad], usize::MAX as nat) is None);
        }
        Err(RBMError(ErrorKind::MalformedLabels))
    }
}

} // verus!
