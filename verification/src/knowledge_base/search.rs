use vstd::prelude::*;
use crate::text::{decimal, decimal_string, join2};

verus! {

/// Whether `r` lists the positions of the `k` largest keys (all of them when
/// there are fewer than `k`), largest first, each position once; among equal
/// keys any choice qualifies.
pub open spec fn is_top_k(keys: Seq<u64>, k: nat, r: Seq<usize>) -> bool {
    &&& r.len() == if k < keys.len() { k } else { keys.len() }
    &&& forall|a: int| 0 <= a < r.len() ==> #[trigger] r[a] < keys.len()
    &&& forall|a: int, b: int| 0 <= a < b < r.len() ==> r[a] != r[b]
    &&& forall|a: int, b: int| 0 <= a < b < r.len() ==> keys[r[a] as int] >= keys[r[b] as int]
    &&& forall|j: int, a: int|
        #![trigger keys[j], r[a]]
        0 <= j < keys.len() && 0 <= a < r.len() && !r.contains(j as usize) ==> keys[j] <= keys[r[a] as int]
}

/// The positions of the `top_k` largest keys, largest first. A key stands for
/// a similarity score: larger keys for more similar chunks.
pub fn rank_top_k(keys: &Vec<u64>, top_k: usize) -> (r: Vec<usize>)
    ensures
        is_top_k(keys@, top_k as nat, r@),
{
    let n = keys.len();
    let goal: usize = if top_k < n { top_k } else { n };
    let mut taken: Vec<bool> = Vec::new();
    let mut t: usize = 0;
    while t < n
        invariant
            t <= n,
            taken@.len() == t,
            forall|j: int| 0 <= j < t ==> !taken@[j],
        decreases n - t,
    {
        taken.push(false);
        t = t + 1;
    }
    let mut chosen: Vec<usize> = Vec::new();
    while chosen.len() < goal
        invariant
            n == keys@.len(),
            goal <= n,
            goal == if top_k < n { top_k } else { n },
            chosen@.len() <= goal,
            taken@.len() == n,
            forall|a: int| 0 <= a < chosen@.len() ==> #[trigger] chosen@[a] < n,
            forall|j: int| 0 <= j < n ==> (taken@[j] <==> chosen@.contains(j as usize)),
            forall|a: int, b: int| 0 <= a < b < chosen@.len() ==> chosen@[a] != chosen@[b],
            forall|a: int, b: int|
                0 <= a < b < chosen@.len() ==> keys@[chosen@[a] as int] >= keys@[chosen@[b] as int],
            forall|j: int, a: int|
                #![trigger keys@[j], chosen@[a]]
                0 <= j < n && 0 <= a < chosen@.len() && !taken@[j] ==> keys@[j]
                    <= keys@[chosen@[a] as int],
        decreases goal - chosen@.len(),
    {
        // some position is still free, since fewer than n are taken
        let mut best: usize = n;
        let mut i: usize = 0;
        while i < n
            invariant
                i <= n,
                n == keys@.len(),
                taken@.len() == n,
                best == n || (best < i && !taken@[best as int]),
                best < n ==> forall|j: int| 0 <= j < i && !taken@[j] ==> keys@[j] <= keys@[best as int],
                best == n ==> forall|j: int| 0 <= j < i ==> taken@[j],
            decreases n - i,
        {
            if !taken[i] && (best == n || keys[i] > keys[best]) {
                best = i;
            }
            i = i + 1;
        }
        if best == n {
            // every position is taken, so `chosen` already lists all of them
            proof {
                let cs = chosen@;
                assert forall|j: int| 0 <= j < n implies #[trigger] cs.contains(j as usize) by {
                    assert(taken@[j]);
                }
                lemma_distinct_cover(cs, n as nat);
                assert(false);
            }
            return chosen;
        }
        let ghost old_chosen = chosen@;
        chosen.push(best);
        taken.set(best, true);
        proof {
            assert forall|j: int| 0 <= j < n implies (taken@[j] <==> chosen@.contains(j as usize)) by {
                if j == best as int {
                    assert(chosen@[chosen@.len() - 1] == best);
                } else if old_chosen.contains(j as usize) {
                    let a = choose|a: int| 0 <= a < old_chosen.len() && old_chosen[a] == j as usize;
                    assert(chosen@[a] == j as usize);
                } else if chosen@.contains(j as usize) {
                    let a = choose|a: int| 0 <= a < chosen@.len() && chosen@[a] == j as usize;
                    if a < old_chosen.len() {
                        assert(old_chosen[a] == j as usize);
                    }
                }
            }
            assert forall|a: int, b: int| 0 <= a < b < chosen@.len() implies chosen@[a] != chosen@[b] by {
                if b == chosen@.len() - 1 {
                    assert(old_chosen.contains(chosen@[a]));
                }
            }
        }
    }
    chosen
}

/// `n` distinct positions below `n` can only be listed by a sequence of
/// length `n` or more.
proof fn lemma_distinct_cover(s: Seq<usize>, n: nat)
    requires
        n <= usize::MAX,
        forall|j: int| 0 <= j < n ==> #[trigger] s.contains(j as usize),
    ensures
        s.len() >= n,
    decreases n,
{
    if n > 0 {
        let m = (n - 1) as usize;
        assert(s.contains((n - 1) as int as usize));
        let a = choose|a: int| 0 <= a < s.len() && s[a] == m;
        let t = s.remove(a);
        assert forall|j: int| 0 <= j < n - 1 implies #[trigger] t.contains(j as usize) by {
            assert(s.contains(j as usize));
            let b = choose|b: int| 0 <= b < s.len() && s[b] == j as usize;
            assert(j as usize != m);
            if b < a {
                assert(t[b] == j as usize);
            } else {
                assert(b != a);
                assert(t[b - 1] == j as usize);
            }
        }
        lemma_distinct_cover(t, (n - 1) as nat);
    }
}

/// Whether a search has anything to rank: at least one chunk and a positive
/// `top_k`. Otherwise it answers no hit without computing any embedding.
pub fn search_has_work(chunk_count: usize, top_k: usize) -> (r: bool)
    ensures
        r == (chunk_count > 0 && top_k > 0),
{
    chunk_count > 0 && top_k > 0
}

/// Checks that one embedding came back per chunk.
pub fn check_embedding_count(expected: usize, got: usize) -> (r: Result<(), String>)
    ensures
        r is Ok <==> expected == got,
        r matches Err(e) ==> e@ == "embedding count mismatch: expected "@ + decimal(expected as nat)
            + ", got "@ + decimal(got as nat),
{
    if expected == got {
        return Ok(());
    }
    let s = join2("embedding count mismatch: expected ", decimal_string(expected as u64).as_str());
    let s = join2(s.as_str(), ", got ");
    Err(join2(s.as_str(), decimal_string(got as u64).as_str()))
}

/// The place of an `f32`, given by its bits, in the order of
/// `f32::total_cmp`: that function compares the bits read as an `i32`, with
/// the 31 low bits flipped when the sign bit is set.
pub open spec fn total_rank(bits: u32) -> int {
    if bits < 0x8000_0000 {
        bits as int
    } else {
        0x8000_0000 - 1 - bits
    }
}

/// A key for a similarity score given by its bits: keys compare as the
/// scores do under `f32::total_cmp`.
pub fn score_key(bits: u32) -> (r: u64)
    ensures
        r == total_rank(bits) + 0x8000_0000,
{
    if bits >= 0x8000_0000 {
        (0xffff_ffffu32 - bits) as u64
    } else {
        bits as u64 + 0x8000_0000
    }
}

} // verus!
