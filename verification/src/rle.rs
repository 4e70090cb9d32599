//! Run-length coding of bytes: each run is a count from 1 to 255 and a value.
use vstd::prelude::*;

verus! {

/// The largest count that a run can carry.
pub const MAX_RUN: usize = 255;

/// The length of the run at the start of `data`: the equal bytes that it
/// begins with, up to `limit` of them.
pub open spec fn run_length(data: Seq<u8>, limit: nat) -> nat
    decreases limit,
{
    if limit == 0 || data.len() == 0 {
        0
    } else if data.len() >= 2 && data[1] == data[0] {
        1 + run_length(data.skip(1), (limit - 1) as nat)
    } else {
        1
    }
}

/// The runs of `data` as pairs of count and value.
pub open spec fn rle_of(data: Seq<u8>) -> Seq<u8>
    decreases data.len(),
{
    if data.len() == 0 {
        Seq::empty()
    } else {
        let n = run_length(data, MAX_RUN as nat);
        proof {
            lemma_run(data, MAX_RUN as nat);
        }
        seq![n as u8, data[0]] + rle_of(data.skip(n as int))
    }
}

/// The bytes that pairs of count and value stand for; a last byte without a
/// partner stands for nothing.
pub open spec fn rle_expand(pairs: Seq<u8>) -> Seq<u8>
    decreases pairs.len(),
{
    if pairs.len() < 2 {
        Seq::empty()
    } else {
        Seq::new(pairs[0] as nat, |i: int| pairs[1]) + rle_expand(pairs.skip(2))
    }
}

/// The run at the start of `data` holds its first byte throughout, is no
/// longer than the limit or the data, and ends only there or at another byte.
pub proof fn lemma_run(data: Seq<u8>, limit: nat)
    requires
        limit > 0,
        data.len() > 0,
    ensures
        1 <= run_length(data, limit) <= limit,
        run_length(data, limit) <= data.len(),
        forall|i: int| 0 <= i < run_length(data, limit) ==> #[trigger] data[i] == data[0],
        run_length(data, limit) < limit && run_length(data, limit) < data.len() ==> data[run_length(
            data,
            limit,
        ) as int] != data[0],
    decreases limit,
{
    if limit > 1 && data.len() >= 2 && data[1] == data[0] {
        let rest = data.skip(1);
        lemma_run(rest, (limit - 1) as nat);
        let n = run_length(rest, (limit - 1) as nat);
        assert forall|i: int| 0 <= i < n + 1 implies #[trigger] data[i] == data[0] by {
            if i > 0 {
                assert(rest[i - 1] == data[i]);
            }
        }
        if n < limit - 1 && n < rest.len() {
            assert(rest[n as int] == data[(n + 1) as int]);
        }
    } else if limit == 1 && data.len() >= 2 && data[1] == data[0] {
        assert(run_length(data.skip(1), 0) == 0);
    }
}

/// A stretch of equal bytes that cannot be carried on is the run.
proof fn lemma_run_is(data: Seq<u8>, limit: nat, n: nat)
    requires
        0 < n <= limit,
        n <= data.len(),
        forall|i: int| 0 <= i < n ==> #[trigger] data[i] == data[0],
        n == limit || n == data.len() || data[n as int] != data[0],
    ensures
        run_length(data, limit) == n,
{
    lemma_run(data, limit);
    let m = run_length(data, limit);
    if m < n {
        assert(data[m as int] == data[0]);
    } else if n < m {
        assert(data[n as int] == data[0]);
    }
}

/// The run-length coding of `data`.
pub fn rle_encode(data: &[u8]) -> (r: Vec<u8>)
    ensures
        r@ == rle_of(data@),
{
    let mut out: Vec<u8> = Vec::new();
    let mut i: usize = 0;
    assert(data@.skip(0) =~= data@);
    assert(out@ + rle_of(data@.skip(0)) =~= rle_of(data@));
    while i < data.len()
        invariant
            i <= data.len(),
            out@ + rle_of(data@.skip(i as int)) == rle_of(data@),
        decreases data.len() - i,
    {
        let val: u8 = data[i];
        let mut count: usize = 1;
        while count < data.len() - i && data[i + count] == val && count < MAX_RUN
            invariant
                i < data.len(),
                val == data@[i as int],
                1 <= count <= MAX_RUN,
                count <= data.len() - i,
                forall|k: int| i <= k < i + count ==> data@[k] == val,
            decreases data.len() - i - count,
        {
            count += 1;
        }
        let ghost rest = data@.skip(i as int);
        let ghost before = out@;
        proof {
            assert(forall|k: int| 0 <= k < rest.len() ==> rest[k] == data@[k + i]);
            lemma_run_is(rest, MAX_RUN as nat, count as nat);
            assert(rest.skip(count as int) =~= data@.skip(i + count));
        }
        out.push(count as u8);
        out.push(val);
        i += count;
        assert(before + (seq![count as u8, val] + rle_of(data@.skip(i as int))) =~= out@ + rle_of(
            data@.skip(i as int),
        ));
    }
    assert(data@.skip(i as int) =~= Seq::empty());
    assert(out@ + rle_of(data@.skip(i as int)) =~= out@);
    out
}

/// The bytes that a run-length coding stands for.
pub fn rle_decode(data: &[u8]) -> (r: Vec<u8>)
    ensures
        r@ == rle_expand(data@),
{
    let mut out: Vec<u8> = Vec::new();
    let mut i: usize = 0;
    assert(data@.skip(0) =~= data@);
    assert(out@ + rle_expand(data@.skip(0)) =~= rle_expand(data@));
    while data.len() - i > 1
        invariant
            i <= data.len(),
            out@ + rle_expand(data@.skip(i as int)) == rle_expand(data@),
        decreases data.len() - i,
    {
        let count: u8 = data[i];
        let val: u8 = data[i + 1];
        let ghost before = out@;
        let mut k: u8 = 0;
        assert(before + Seq::new(0, |j: int| val) =~= before);
        while k < count
            invariant
                k <= count,
                out@ == before + Seq::new(k as nat, |j: int| val),
            decreases count - k,
        {
            out.push(val);
            k += 1;
            assert(out@ =~= before + Seq::new(k as nat, |j: int| val));
        }
        proof {
            let rest = data@.skip(i as int);
            assert(rest.skip(2) =~= data@.skip(i + 2));
            assert(rest[0] == count && rest[1] == val);
            assert(Seq::new(count as nat, |j: int| val) =~= Seq::new(rest[0] as nat, |j: int| rest[1]));
            assert(before + (Seq::new(count as nat, |j: int| val) + rle_expand(rest.skip(2))) =~= out@
                + rle_expand(rest.skip(2)));
        }
        i += 2;
    }
    assert(rle_expand(data@.skip(i as int)) =~= Seq::empty());
    assert(out@ + rle_expand(data@.skip(i as int)) =~= out@);
    out
}

/// Expanding a run-length coding gives back the bytes that were coded.
pub proof fn lemma_rle_round_trip(data: Seq<u8>)
    ensures
        rle_expand(rle_of(data)) == data,
    decreases data.len(),
{
    if data.len() > 0 {
        lemma_run(data, MAX_RUN as nat);
        let n = run_length(data, MAX_RUN as nat);
        let rest = data.skip(n as int);
        lemma_rle_round_trip(rest);
        let pairs = rle_of(data);
        assert(pairs =~= seq![n as u8, data[0]] + rle_of(rest));
        assert(pairs.skip(2) =~= rle_of(rest));
        assert(rle_expand(pairs) =~= data);
    } else {
        assert(rle_expand(rle_of(data)) =~= data);
    }
}

/// Run-length coding at most doubles the bytes, and is empty only for nothing.
pub proof fn lemma_rle_size(data: Seq<u8>)
    ensures
        rle_of(data).len() <= 2 * data.len(),
        data.len() > 0 ==> rle_of(data).len() > 0,
    decreases data.len(),
{
    if data.len() > 0 {
        lemma_run(data, MAX_RUN as nat);
        lemma_rle_size(data.skip(run_length(data, MAX_RUN as nat) as int));
    }
}

} // verus!
