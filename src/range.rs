use vstd::prelude::*;

verus! {

/// A contiguous span of byte offsets of the remote resource: from `start` up
/// to, but not including, `end_exclusive`. `end_exclusive == None` means the
/// span runs to the end of the resource. A bounded span with
/// `end_exclusive <= start` holds no byte.
#[derive(Clone, Copy, Debug, PartialEq, Eq, Structural)]
pub struct ByteRange {
    pub start: u64,
    pub end_exclusive: Option<u64>,
}

/// Width of every bounded range when `len` bytes are shared among `workers`.
pub open spec fn chunk_size(len: nat, workers: nat) -> nat {
    len / workers
}

/// The range, as `(start, end)`, that worker `i` of `workers` owns for a
/// resource of `len` bytes. A bounded end is inclusive and may be `start - 1`
/// (an empty range) when there are more workers than bytes.
pub open spec fn range_for(len: nat, workers: nat, i: int) -> (int, Option<int>) {
    let c = chunk_size(len, workers) as int;
    if i + 1 == workers {
        (i * c, None)
    } else {
        (i * c, Some((i + 1) * c - 1))
    }
}

/// Byte `p` lies in the range of worker `i`; an open end stops at the last byte.
pub open spec fn covers(len: nat, workers: nat, i: int, p: int) -> bool {
    let (s, e) = range_for(len, workers, i);
    &&& s <= p
    &&& match e {
        Some(e) => p <= e,
        None => p < len,
    }
}

/// Some worker's range holds byte `p`.
pub open spec fn in_some_range(len: nat, workers: nat, p: int) -> bool {
    exists|i: int| 0 <= i < workers && #[trigger] covers(len, workers, i, p)
}

/// `r` is bounded and holds no byte.
pub open spec fn is_empty_range(r: ByteRange) -> bool {
    match r.end_exclusive {
        Some(e) => e <= r.start,
        None => false,
    }
}

/// `r` as `(start, inclusive end)`, the form of `range_for`.
pub open spec fn range_view(r: ByteRange) -> (int, Option<int>) {
    (
        r.start as int,
        match r.end_exclusive {
            Some(e) => Some(e - 1),
            None => None,
        },
    )
}

/// For any length of at least one byte and any number of workers, the ranges
/// partition `[0, len - 1]`: the first starts at zero, each bounded range ends
/// just before the next begins, only the last is open-ended, every byte lies in
/// exactly one range and no range holds a byte past the end.
pub proof fn lemma_ranges_partition(len: nat, workers: nat)
    requires
        len >= 1,
        workers >= 1,
    ensures
        range_for(len, workers, 0).0 == 0,
        forall|i: int|
            0 <= i < workers - 1 ==> (#[trigger] range_for(len, workers, i)).1 == Some(
                range_for(len, workers, i + 1).0 - 1,
            ),
        forall|i: int|
            0 <= i < workers ==> ((#[trigger] range_for(len, workers, i)).1 is None <==> i
                == workers - 1),
        forall|p: int| 0 <= p < len ==> #[trigger] in_some_range(len, workers, p),
        forall|i: int, j: int, p: int|
            0 <= i < workers && 0 <= j < workers && #[trigger] covers(len, workers, i, p)
                && #[trigger] covers(len, workers, j, p) ==> i == j,
        forall|i: int, p: int|
            0 <= i < workers && #[trigger] covers(len, workers, i, p) ==> 0 <= p < len,
{
    let c = chunk_size(len, workers) as int;
    assert(c * workers <= len) by (nonlinear_arith)
        requires
            c == len / workers,
            workers >= 1,
    ;
    assert forall|p: int| 0 <= p < len implies #[trigger] in_some_range(len, workers, p) by {
        if c == 0 {
            assert(covers(len, workers, workers - 1, p));
        } else {
            let q = p / c;
            assert(q * c <= p < q * c + c) by (nonlinear_arith)
                requires
                    q == p / c,
                    c >= 1,
                    p >= 0,
            ;
            if q >= workers - 1 {
                assert((workers - 1) * c <= q * c) by (nonlinear_arith)
                    requires
                        q >= workers - 1,
                        c >= 1,
                ;
                assert(covers(len, workers, workers - 1, p));
            } else {
                assert(q >= 0) by (nonlinear_arith)
                    requires
                        q == p / c,
                        c >= 1,
                        p >= 0,
                ;
                assert((q + 1) * c == q * c + c) by (nonlinear_arith);
                assert(covers(len, workers, q, p));
            }
        }
    }
    assert forall|i: int, j: int, p: int|
        0 <= i < workers && 0 <= j < workers && #[trigger] covers(len, workers, i, p)
            && #[trigger] covers(len, workers, j, p) implies i == j by {
        if i < j {
            assert((i + 1) * c <= j * c) by (nonlinear_arith)
                requires
                    i + 1 <= j,
                    c >= 0,
            ;
        } else if j < i {
            assert((j + 1) * c <= i * c) by (nonlinear_arith)
                requires
                    j + 1 <= i,
                    c >= 0,
            ;
        }
    }
    assert forall|i: int, p: int|
        0 <= i < workers && #[trigger] covers(len, workers, i, p) implies 0 <= p < len by {
        assert(0 <= i * c) by (nonlinear_arith)
            requires
                i >= 0,
                c >= 0,
        ;
        if i + 1 < workers {
            assert((i + 1) * c <= c * workers) by (nonlinear_arith)
                requires
                    i + 1 <= workers,
                    c >= 0,
            ;
        }
    }
}

/// Splits a resource of `content_length` bytes among `workers` workers.
/// Worker `i` gets `[i * c, (i + 1) * c)` with `c = content_length / workers`;
/// the last worker's range is open-ended and absorbs the remainder. With more
/// workers than bytes, `c` is zero and every range but the last is empty.
pub fn compute_ranges(content_length: u64, workers: u64) -> (r: Vec<ByteRange>)
    requires
        workers >= 1,
    ensures
        r.len() == workers,
        forall|i: int|
            0 <= i < r.len() ==> range_view(#[trigger] r[i]) == range_for(
                content_length as nat,
                workers as nat,
                i,
            ),
{
    let chunk: u64 = content_length / workers;
    let mut out: Vec<ByteRange> = Vec::new();
    let mut i: u64 = 0;
    while i < workers
        invariant
            workers >= 1,
            chunk == chunk_size(content_length as nat, workers as nat),
            i <= workers,
            out.len() == i,
            forall|k: int|
                0 <= k < out.len() ==> range_view(#[trigger] out[k]) == range_for(
                    content_length as nat,
                    workers as nat,
                    k,
                ),
        decreases workers - i,
    {
        proof {
            lemma_range_fits(content_length as nat, workers as nat, i as nat);
        }
        let start: u64 = i * chunk;
        let end_exclusive: Option<u64> = if i + 1 == workers {
            None
        } else {
            Some((i + 1) * chunk)
        };
        out.push(ByteRange { start, end_exclusive });
        i = i + 1;
    }
    out
}

proof fn lemma_range_fits(len: nat, workers: nat, i: nat)
    requires
        workers >= 1,
        i < workers,
    ensures
        0 <= i * chunk_size(len, workers) <= len,
        i + 1 < workers ==> (i + 1) * chunk_size(len, workers) <= len,
{
    let c = chunk_size(len, workers);
    assert(c * workers <= len) by (nonlinear_arith)
        requires
            c == len / workers,
            workers >= 1,
    ;
    assert(i * c <= c * workers) by (nonlinear_arith)
        requires
            i < workers,
    ;
    if i + 1 < workers {
        assert((i + 1) * c <= c * workers) by (nonlinear_arith)
            requires
                i + 1 < workers,
        ;
    }
}

} // verus!
