//! The search for the signature. The input is probed at a fixed stride: an
//! eight-byte window is compared with the signature, and if it does not
//! match, the next window is taken one stride further.
//!
//! The search trades completeness for speed. A signature that no probe lands
//! on is not found.

use vstd::prelude::*;
use vstd::slice::slice_subrange;
use crate::format::{is_signature, signature_at, SIGNATURE_LEN};

verus! {

/// Distance between two consecutive probes.
pub const PROBE_STRIDE: usize = 4096;

/// The offset of the probe that is made `k` strides after the one at `from`.
pub open spec fn probe(from: int, k: nat) -> int {
    from + k * PROBE_STRIDE
}

/// Whether `offset` is the first probe of the search starting at `from` that
/// lands on a signature.
pub open spec fn first_signature_on_probe(input: Seq<u8>, from: int, offset: int) -> bool {
    exists|k: nat|
        {
            &&& offset == #[trigger] probe(from, k)
            &&& signature_at(input, offset)
            &&& forall|j: nat| j < k ==> !signature_at(input, #[trigger] probe(from, j))
        }
}

/// Whether no probe of the search starting at `from` lands on a signature.
pub open spec fn no_signature_on_probe(input: Seq<u8>, from: int) -> bool {
    forall|k: nat| !signature_at(input, #[trigger] probe(from, k))
}

/// The result of the search that starts at `from`: the offset of the first
/// probe that lands on a signature, if there is one.
pub open spec fn next_signature(input: Seq<u8>, from: int) -> Option<int>
    decreases input.len() + PROBE_STRIDE - from,
{
    if from < 0 || from >= input.len() {
        None
    } else if signature_at(input, from) {
        Some(from)
    } else {
        next_signature(input, from + PROBE_STRIDE)
    }
}

/// A signature that is found lies at or after the offset at which the search
/// started.
pub proof fn lemma_next_signature_bounds(input: Seq<u8>, from: int)
    ensures
        next_signature(input, from) matches Some(offset) ==> from <= offset && signature_at(
            input,
            offset,
        ),
    decreases input.len() + PROBE_STRIDE - from,
{
    if 0 <= from < input.len() && !signature_at(input, from) {
        lemma_next_signature_bounds(input, from + PROBE_STRIDE);
    }
}

/// A signature that a probe lands on is found, unless an earlier probe of the
/// same search has already landed on a signature.
///
/// A search that starts at offset `from` probes `from`, then one stride
/// further, then two strides further, and so on. If the signature is present
/// at the `k`-th of these offsets and at none of the earlier ones, the search
/// returns that offset.
pub proof fn lemma_signature_on_probe_is_found(input: Seq<u8>, from: int, k: nat)
    requires
        0 <= from,
        signature_at(input, probe(from, k)),
        forall|j: nat| j < k ==> !signature_at(input, #[trigger] probe(from, j)),
    ensures
        next_signature(input, from) == Some(probe(from, k)),
    decreases k,
{
    assert(probe(from, 0) == from);
    if k > 0 {
        let next = from + PROBE_STRIDE;
        assert forall|j: nat| j < k - 1 implies !signature_at(input, #[trigger] probe(next, j)) by {
            assert(probe(next, j) == probe(from, j + 1));
        }
        lemma_signature_on_probe_is_found(input, next, (k - 1) as nat);
    }
}

/// The offset returned by a search is one of its probes. It contains the
/// signature, and no earlier probe of the search does.
pub proof fn lemma_found_signature_is_first_on_probe(input: Seq<u8>, from: int) -> (k: nat)
    requires
        next_signature(input, from) is Some,
    ensures
        next_signature(input, from) == Some(probe(from, k)),
        signature_at(input, probe(from, k)),
        forall|j: nat| j < k ==> !signature_at(input, #[trigger] probe(from, j)),
    decreases input.len() + PROBE_STRIDE - from,
{
    if signature_at(input, from) {
        0
    } else {
        let next = from + PROBE_STRIDE;
        let k = lemma_found_signature_is_first_on_probe(input, next);
        assert forall|j: nat| j < k + 1 implies !signature_at(input, #[trigger] probe(from, j)) by {
            if j > 0 {
                assert(probe(from, j) == probe(next, (j - 1) as nat));
            }
        }
        k + 1
    }
}

/// A search that finds nothing has probed every stride up to the end of the
/// input without landing on a signature.
pub proof fn lemma_nothing_found_means_no_signature_on_probe(input: Seq<u8>, from: int)
    requires
        0 <= from,
        next_signature(input, from) is None,
    ensures
        no_signature_on_probe(input, from),
    decreases input.len() + PROBE_STRIDE - from,
{
    assert forall|k: nat| !signature_at(input, #[trigger] probe(from, k)) by {
        if from < input.len() {
            let next = from + PROBE_STRIDE;
            lemma_nothing_found_means_no_signature_on_probe(input, next);
            if k > 0 {
                assert(probe(from, k) == probe(next, (k - 1) as nat));
            }
        } else {
            assert(probe(from, k) >= from) by (nonlinear_arith)
                requires
                    probe(from, k) == from + k * PROBE_STRIDE,
                    PROBE_STRIDE > 0,
            ;
        }
    }
}

/// States the result of a search without reference to the way in which it
/// is computed: the search returns the first probe that lands on a
/// signature, and it returns nothing only if no probe lands on one.
pub proof fn lemma_next_signature_is_first_on_probe(input: Seq<u8>, from: int)
    requires
        0 <= from,
    ensures
        match next_signature(input, from) {
            Some(offset) => first_signature_on_probe(input, from, offset),
            None => no_signature_on_probe(input, from),
        },
{
    if next_signature(input, from) is Some {
        lemma_found_signature_is_first_on_probe(input, from);
    } else {
        lemma_nothing_found_means_no_signature_on_probe(input, from);
    }
}

/// A signature that does not lie on a probe of a search is not found by that
/// search: a search that starts at `from` never returns an offset whose
/// distance from `from` is not a multiple of the stride.
pub proof fn lemma_signature_off_probe_is_missed(input: Seq<u8>, from: int, offset: int)
    requires
        (offset - from) % (PROBE_STRIDE as int) != 0,
    ensures
        next_signature(input, from) != Some(offset),
{
    if next_signature(input, from) is Some {
        let k = lemma_found_signature_is_first_on_probe(input, from);
        assert((probe(from, k) - from) % 4096 == 0) by (nonlinear_arith)
            requires
                probe(from, k) - from == k * 4096,
        ;
    }
}

/// Probes `input` starting at offset `from`, one stride at a time, and
/// returns the offset of the first probe that lands on a signature. Returns
/// `None` if no probe lands on a signature before the end of the input.
pub fn find_signature(input: &[u8], from: usize) -> (found: Option<usize>)
    ensures
        match found {
            Some(offset) => {
                &&& first_signature_on_probe(input@, from as int, offset as int)
                &&& next_signature(input@, from as int) == Some(offset as int)
            },
            None => {
                &&& no_signature_on_probe(input@, from as int)
                &&& next_signature(input@, from as int) is None
            },
        },
{
    proof {
        lemma_next_signature_is_first_on_probe(input@, from as int);
    }
    let len = input.len();
    let mut pos: usize = from;
    while pos < len
        invariant
            len == input@.len(),
            from <= pos,
            next_signature(input@, pos as int) == next_signature(input@, from as int),
            match next_signature(input@, from as int) {
                Some(offset) => first_signature_on_probe(input@, from as int, offset),
                None => no_signature_on_probe(input@, from as int),
            },
        decreases len - pos,
    {
        let left: usize = len - pos;
        if left >= SIGNATURE_LEN && is_signature(slice_subrange(input, pos, pos + SIGNATURE_LEN)) {
            return Some(pos);
        }
        if left <= PROBE_STRIDE {
            assert(next_signature(input@, pos + PROBE_STRIDE) is None);
            return None;
        }
        pos = pos + PROBE_STRIDE;
    }
    None
}

} // verus!
