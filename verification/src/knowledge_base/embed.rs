use vstd::prelude::*;

verus! {

/// How many texts one embedding request carries.
pub const EMBED_BATCH_SIZE: usize = 128;

/// Whether `r` cuts `0..len` into consecutive ranges of `size` items, the
/// last one possibly shorter.
pub open spec fn is_batching(len: nat, size: nat, r: Seq<(usize, usize)>) -> bool {
    &&& (len == 0 <==> r.len() == 0)
    &&& r.len() > 0 ==> r[0].0 == 0 && r.last().1 == len
    &&& forall|k: int| 0 <= k < r.len() - 1 ==> #[trigger] r[k].1 == r[k + 1].0
    &&& forall|k: int| 0 <= k < r.len() ==> 0 < #[trigger] r[k].1 - r[k].0 <= size
    &&& forall|k: int| 0 <= k < r.len() - 1 ==> #[trigger] r[k].1 - r[k].0 == size
}

/// The ranges of the batches in which `len` texts are sent.
pub fn batch_ranges(len: usize, size: usize) -> (r: Vec<(usize, usize)>)
    requires
        size > 0,
    ensures
        is_batching(len as nat, size as nat, r@),
{
    let mut r: Vec<(usize, usize)> = Vec::new();
    let mut start: usize = 0;
    while start < len
        invariant
            start <= len,
            size > 0,
            start == 0 <==> r@.len() == 0,
            r@.len() > 0 ==> r@[0].0 == 0 && r@.last().1 == start,
            forall|k: int| 0 <= k < r@.len() - 1 ==> #[trigger] r@[k].1 == r@[k + 1].0,
            forall|k: int| 0 <= k < r@.len() ==> 0 < #[trigger] r@[k].1 - r@[k].0 <= size,
            forall|k: int| 0 <= k < r@.len() - 1 ==> #[trigger] r@[k].1 - r@[k].0 == size,
            r@.len() > 0 && start < len ==> r@.last().1 - r@.last().0 == size,
        decreases len - start,
    {
        let end: usize = if size < len - start { start + size } else { len };
        r.push((start, end));
        start = end;
    }
    r
}

/// Whether `r` lists the positions `0..keys.len()` ordered by key, positions
/// with equal keys in the order they came in (a stable sort by key).
pub open spec fn is_stable_order(keys: Seq<u32>, r: Seq<usize>) -> bool {
    &&& r.len() == keys.len()
    &&& forall|a: int| 0 <= a < r.len() ==> #[trigger] r[a] < keys.len()
    &&& forall|a: int, b: int| 0 <= a < b < r.len() ==> r[a] != r[b]
    &&& forall|a: int, b: int|
        #![trigger r[a], r[b]]
        0 <= a < b < r.len() ==> keys[r[a] as int] < keys[r[b] as int] || (keys[r[a] as int]
            == keys[r[b] as int] && r[a] < r[b])
}

/// The order in which embeddings come back: by the index each one carries.
pub fn order_by_index(keys: &Vec<u32>) -> (r: Vec<usize>)
    ensures
        is_stable_order(keys@, r@),
{
    let n = keys.len();
    let mut r: Vec<usize> = Vec::new();
    let mut i: usize = 0;
    while i < n
        invariant
            i <= n,
            n == keys@.len(),
            r@.len() == i,
            forall|a: int| 0 <= a < r@.len() ==> #[trigger] r@[a] < i,
            forall|a: int, b: int| 0 <= a < b < r@.len() ==> r@[a] != r@[b],
            forall|a: int, b: int|
                #![trigger r@[a], r@[b]]
                0 <= a < b < r@.len() ==> keys@[r@[a] as int] < keys@[r@[b] as int] || (keys@[r@[a] as int]
                    == keys@[r@[b] as int] && r@[a] < r@[b]),
        decreases n - i,
    {
        let k = keys[i];
        let mut p: usize = 0;
        let m = r.len();
        while p < m && keys[r[p]] <= k
            invariant
                p <= m,
                m == r@.len(),
                n == keys@.len(),
                forall|a: int| 0 <= a < r@.len() ==> #[trigger] r@[a] < i,
                i < n,
                k == keys@[i as int],
                forall|a: int| 0 <= a < p ==> keys@[#[trigger] r@[a] as int] <= k,
            decreases m - p,
        {
            p = p + 1;
        }
        let ghost old_r = r@;
        r.insert(p, i);
        proof {
            assert forall|a: int, b: int|
                #![trigger r@[a], r@[b]]
                0 <= a < b < r@.len() implies keys@[r@[a] as int] < keys@[r@[b] as int] || (
                keys@[r@[a] as int] == keys@[r@[b] as int] && r@[a] < r@[b]) by {
                if b < p {
                    assert(r@[a] == old_r[a] && r@[b] == old_r[b]);
                } else if b == p {
                    assert(r@[a] == old_r[a]);
                } else if a == p {
                    assert(r@[b] == old_r[b - 1]);
                    // keys after the insertion point are larger, or equal only when
                    // the scan stopped at the end
                    assert(p < m);
                    assert(keys@[old_r[p as int] as int] > k);
                    if b - 1 > p {
                        assert(old_r[p as int] == r@[p + 1]);
                        assert(keys@[r@[p + 1] as int] <= keys@[r@[b] as int]);
                    }
                } else if a < p {
                    assert(r@[a] == old_r[a] && r@[b] == old_r[b - 1]);
                } else {
                    assert(r@[a] == old_r[a - 1] && r@[b] == old_r[b - 1]);
                }
            }
            assert forall|a: int, b: int| 0 <= a < b < r@.len() implies r@[a] != r@[b] by {
                if a == p {
                    assert(r@[b] == old_r[b - 1]);
                } else if b == p {
                    assert(r@[a] == old_r[a]);
                } else if b < p {
                    assert(r@[a] == old_r[a] && r@[b] == old_r[b]);
                } else if a < p {
                    assert(r@[a] == old_r[a] && r@[b] == old_r[b - 1]);
                } else {
                    assert(r@[a] == old_r[a - 1] && r@[b] == old_r[b - 1]);
                }
            }
        }
        i = i + 1;
    }
    r
}

} // verus!
