use vstd::prelude::*;
use crate::text::{all_white, blank_between, chars_of, is_white_space, string_from};

verus! {

/// The chunks cut from `chars` starting at `start`: each chunk is at most
/// `size` characters, the next one starts `overlap` characters before the end
/// of the previous one, the last one reaches the end, and chunks that are all
/// white space are left out.
pub open spec fn chunks_from(chars: Seq<char>, start: int, size: int, overlap: int) -> Seq<Seq<char>>
    decreases chars.len() - start,
{
    if start < 0 || start >= chars.len() || size <= overlap || overlap < 0 {
        Seq::empty()
    } else {
        let end = if start + size < chars.len() { start + size } else { chars.len() as int };
        let piece = chars.subrange(start, end);
        let kept: Seq<Seq<char>> = if all_white(piece) { Seq::empty() } else { seq![piece] };
        if end == chars.len() {
            kept
        } else {
            kept + chunks_from(chars, end - overlap, size, overlap)
        }
    }
}

/// The chunks of a text for a chunk size and an overlap: none when the size
/// is 0, when the overlap is not smaller than the size, or when the text is
/// empty.
pub open spec fn fixed_chunks(text: Seq<char>, chunk_size: nat, overlap: nat) -> Seq<Seq<char>> {
    if chunk_size == 0 || overlap >= chunk_size {
        Seq::empty()
    } else {
        chunks_from(text, 0, chunk_size as int, overlap as int)
    }
}

pub open spec fn texts_view(v: Seq<String>) -> Seq<Seq<char>> {
    v.map_values(|s: String| s@)
}

/// Cuts a text into chunks of `chunk_size` characters where each chunk
/// repeats the last `overlap` characters of the one before it; chunks made
/// only of white space are dropped.
pub fn fixed_length_chunking(text: &str, chunk_size: usize, overlap: usize) -> (r: Vec<String>)
    ensures
        texts_view(r@) == fixed_chunks(text@, chunk_size as nat, overlap as nat),
{
    let mut chunks: Vec<String> = Vec::new();
    if chunk_size == 0 || overlap >= chunk_size {
        assert(texts_view(chunks@) =~= Seq::<Seq<char>>::empty());
        return chunks;
    }
    let chars = chars_of(text);
    let len = chars.len();
    if len == 0 {
        assert(texts_view(chunks@) =~= Seq::<Seq<char>>::empty());
        return chunks;
    }
    let ghost total = fixed_chunks(text@, chunk_size as nat, overlap as nat);
    let mut start: usize = 0;
    assert(texts_view(chunks@) + chunks_from(chars@, 0, chunk_size as int, overlap as int) =~= total);
    loop
        invariant
            0 <= start < len,
            len == chars@.len(),
            chars@ == text@,
            0 <= overlap < chunk_size,
            total == fixed_chunks(text@, chunk_size as nat, overlap as nat),
            texts_view(chunks@) + chunks_from(chars@, start as int, chunk_size as int, overlap as int)
                == total,
        decreases len - start,
    {
        let end: usize = if chunk_size < len - start { start + chunk_size } else { len };
        let ghost piece = chars@.subrange(start as int, end as int);
        let ghost before = texts_view(chunks@);
        let ghost rest = chunks_from(chars@, start as int, chunk_size as int, overlap as int);
        let blank = blank_between(&chars, start, end);
        if !blank {
            let s = string_from(&chars, start, end);
            chunks.push(s);
            assert(texts_view(chunks@) =~= before.push(piece));
        } else {
            assert(texts_view(chunks@) =~= before);
        }
        if end == len {
            assert(texts_view(chunks@) =~= total);
            return chunks;
        }
        assert(before + rest =~= total);
        start = end - overlap;
        assert(texts_view(chunks@) + chunks_from(chars@, start as int, chunk_size as int, overlap as int)
            =~= total);
    }
}


/// Whether `c` is a stretch of `text` of 1 to `size` characters that is not
/// all white space.
pub open spec fn good_chunk(text: Seq<char>, size: int, c: Seq<char>) -> bool {
    &&& 0 < c.len() <= size
    &&& !all_white(c)
    &&& exists|start: int| 0 <= start && start + c.len() <= text.len() && #[trigger] text.subrange(start, start + c.len()) == c
}

proof fn lemma_chunks_from_good(chars: Seq<char>, start: int, size: int, overlap: int)
    ensures
        forall|k: int|
            0 <= k < chunks_from(chars, start, size, overlap).len() ==> good_chunk(
                chars,
                size,
                #[trigger] chunks_from(chars, start, size, overlap)[k],
            ),
    decreases chars.len() - start,
{
    if start < 0 || start >= chars.len() || size <= overlap || overlap < 0 {
    } else {
        let end = if start + size < chars.len() { start + size } else { chars.len() as int };
        let piece = chars.subrange(start, end);
        if end != chars.len() {
            lemma_chunks_from_good(chars, end - overlap, size, overlap);
        }
        let all = chunks_from(chars, start, size, overlap);
        let kept: Seq<Seq<char>> = if all_white(piece) { Seq::empty() } else { seq![piece] };
        assert forall|k: int| 0 <= k < all.len() implies good_chunk(chars, size, #[trigger] all[k]) by {
            if k < kept.len() {
                assert(all[k] == piece);
                assert(chars.subrange(start, start + piece.len()) == piece);
            } else {
                let rest = chunks_from(chars, end - overlap, size, overlap);
                assert(all == kept + rest);
                assert(all[k] == rest[k - kept.len()]);
            }
        }
    }
}

/// Every chunk is a stretch of the text of at least one and at most
/// `chunk_size` characters, and none is made only of white space.
pub proof fn lemma_chunks_are_good(text: Seq<char>, chunk_size: nat, overlap: nat)
    ensures
        forall|k: int|
            0 <= k < fixed_chunks(text, chunk_size, overlap).len() ==> good_chunk(
                text,
                chunk_size as int,
                #[trigger] fixed_chunks(text, chunk_size, overlap)[k],
            ),
{
    if chunk_size > 0 && overlap < chunk_size {
        lemma_chunks_from_good(text, 0, chunk_size as int, overlap as int);
    }
}

/// The chunks after the first, each without its first `overlap` characters,
/// one after another.
pub open spec fn chunk_tails(chunks: Seq<Seq<char>>, overlap: int) -> Seq<char>
    decreases chunks.len(),
{
    if chunks.len() == 0 {
        Seq::empty()
    } else {
        chunks[0].skip(overlap) + chunk_tails(chunks.drop_first(), overlap)
    }
}

/// The text that chunks cut with the given overlap put back together: the
/// first chunk whole, then every later chunk without its first `overlap`
/// characters.
pub open spec fn reassembled(chunks: Seq<Seq<char>>, overlap: int) -> Seq<char> {
    if chunks.len() == 0 {
        Seq::empty()
    } else {
        chunks[0] + chunk_tails(chunks.drop_first(), overlap)
    }
}

/// The shape of a cut: at least one chunk, every chunk but the last exactly
/// `size` characters, the last 1 to `size` characters, and each chunk after
/// the first beginning with the last `overlap` characters of the one before.
pub open spec fn cut_evenly(chunks: Seq<Seq<char>>, size: int, overlap: int) -> bool {
    &&& chunks.len() >= 1
    &&& forall|i: int| 0 <= i < chunks.len() - 1 ==> (#[trigger] chunks[i]).len() == size
    &&& 1 <= chunks.last().len() <= size
    &&& forall|i: int|
        0 < i < chunks.len() ==> (#[trigger] chunks[i]).take(overlap) == chunks[i - 1].skip(size - overlap)
}

/// Whether no character of `s` is white space.
pub open spec fn no_white(s: Seq<char>) -> bool {
    forall|i: int| 0 <= i < s.len() ==> !is_white_space(#[trigger] s[i])
}

proof fn lemma_chunks_from_reassemble(chars: Seq<char>, start: int, size: int, overlap: int)
    requires
        no_white(chars),
        0 <= start < chars.len(),
        0 <= overlap < size,
    ensures
        cut_evenly(chunks_from(chars, start, size, overlap), size, overlap),
        reassembled(chunks_from(chars, start, size, overlap), overlap) == chars.subrange(
            start,
            chars.len() as int,
        ),
        chunks_from(chars, start, size, overlap)[0] == chars.subrange(
            start,
            if start + size < chars.len() { start + size } else { chars.len() as int },
        ),
    decreases chars.len() - start,
{
    let n = chars.len() as int;
    let end = if start + size < n { start + size } else { n };
    let piece = chars.subrange(start, end);
    assert(!all_white(piece)) by {
        assert(piece[0] == chars[start]);
    }
    let cs = chunks_from(chars, start, size, overlap);
    if end == n {
        assert(cs =~= seq![piece]);
        assert(cs.drop_first() =~= Seq::<Seq<char>>::empty());
        assert(reassembled(cs, overlap) =~= piece);
    } else {
        let next = end - overlap;
        lemma_chunks_from_reassemble(chars, next, size, overlap);
        let rest = chunks_from(chars, next, size, overlap);
        assert(cs =~= seq![piece] + rest);
        assert(cs.drop_first() =~= rest);
        let end2 = if next + size < n { next + size } else { n };
        let first = rest[0];
        assert(first == chars.subrange(next, end2));
        let t = chunk_tails(rest.drop_first(), overlap);
        assert(first + t == chars.subrange(next, n));
        assert(chunk_tails(rest, overlap) == first.skip(overlap) + t);
        assert(chunk_tails(rest, overlap) =~= chars.subrange(end, n)) by {
            assert(first.len() == end2 - next);
            assert(t =~= (first + t).skip(first.len() as int));
            assert(t =~= chars.subrange(end2, n));
            assert(first.skip(overlap) =~= chars.subrange(end, end2));
        }
        assert(reassembled(cs, overlap) =~= chars.subrange(start, n));
        assert forall|i: int| 0 <= i < cs.len() - 1 implies (#[trigger] cs[i]).len() == size by {
            if i > 0 {
                assert(cs[i] == rest[i - 1]);
            }
        }
        assert(cs.last() == rest.last());
        assert forall|i: int| 0 < i < cs.len() implies (#[trigger] cs[i]).take(overlap) == cs[i
            - 1].skip(size - overlap) by {
            assert(cs[i] == rest[i - 1]);
            if i == 1 {
                assert(cs[0] == piece);
                assert(rest[0].take(overlap) =~= piece.skip(size - overlap));
            } else {
                assert(cs[i - 1] == rest[i - 2]);
                assert(rest[i - 1].take(overlap) == rest[i - 2].skip(size - overlap));
            }
        }
    }
}

/// A text with no white space, cut with an overlap smaller than the chunk
/// size, comes back whole from its chunks: every chunk but the last has
/// exactly `chunk_size` characters, the last has 1 to `chunk_size`, each
/// chunk after the first begins with the last `overlap` characters of the one
/// before it, and the first chunk followed by every later chunk without its
/// first `overlap` characters is the text.
pub proof fn lemma_chunks_reassemble(text: Seq<char>, chunk_size: nat, overlap: nat)
    requires
        overlap < chunk_size,
        text.len() > 0,
        no_white(text),
    ensures
        cut_evenly(fixed_chunks(text, chunk_size, overlap), chunk_size as int, overlap as int),
        reassembled(fixed_chunks(text, chunk_size, overlap), overlap as int) == text,
{
    lemma_chunks_from_reassemble(text, 0, chunk_size as int, overlap as int);
    assert(text.subrange(0, text.len() as int) =~= text);
}

/// The piece number `k` of the cut of `text`: it starts `k * step`
/// characters in and runs for `size` characters or to the end of the text.
pub open spec fn cut_piece(text: Seq<char>, size: int, step: int, k: int) -> Seq<char> {
    let start = k * step;
    let end = if start + size < text.len() { start + size } else { text.len() as int };
    text.subrange(start, end)
}

/// Whether the cut of a text of `len` characters has a piece number `k`: the
/// first piece always, a later one when the piece before it stops short of
/// the end.
pub open spec fn has_piece(len: int, size: int, step: int, k: int) -> bool {
    k == 0 || (k > 0 && (k - 1) * step + size < len)
}

proof fn lemma_chunks_from_keeps_pieces(chars: Seq<char>, start: int, size: int, overlap: int, t: int)
    requires
        0 <= start < chars.len(),
        0 <= overlap < size,
        t >= 0,
        t == 0 || start + (t - 1) * (size - overlap) + size < chars.len(),
        !all_white(
            chars.subrange(
                start + t * (size - overlap),
                if start + t * (size - overlap) + size < chars.len() {
                    start + t * (size - overlap) + size
                } else {
                    chars.len() as int
                },
            ),
        ),
    ensures
        chunks_from(chars, start, size, overlap).contains(
            chars.subrange(
                start + t * (size - overlap),
                if start + t * (size - overlap) + size < chars.len() {
                    start + t * (size - overlap) + size
                } else {
                    chars.len() as int
                },
            ),
        ),
    decreases chars.len() - start,
{
    let step = size - overlap;
    let n = chars.len() as int;
    let end = if start + size < n { start + size } else { n };
    let piece = chars.subrange(start, end);
    let cs = chunks_from(chars, start, size, overlap);
    if t == 0 {
        assert(cs[0] == piece);
    } else {
        assert((t - 1) * step >= 0) by (nonlinear_arith)
            requires
                t >= 1,
                step > 0,
        ;
        assert(end == start + size && end < n);
        let next = end - overlap;
        assert(t * step == step + (t - 1) * step) by (nonlinear_arith);
        if t > 1 {
            assert((t - 1) * step == step + (t - 2) * step) by (nonlinear_arith);
        }
        assert(start + t * step == next + (t - 1) * step);
        lemma_chunks_from_keeps_pieces(chars, next, size, overlap, t - 1);
        let rest = chunks_from(chars, next, size, overlap);
        let kept: Seq<Seq<char>> = if all_white(piece) { Seq::empty() } else { seq![piece] };
        assert(cs == kept + rest);
        let target = chars.subrange(
            next + (t - 1) * step,
            if next + (t - 1) * step + size < n { next + (t - 1) * step + size } else { n },
        );
        let w = choose|w: int| 0 <= w < rest.len() && rest[w] == target;
        assert(cs[kept.len() + w] == target);
    }
}

/// No piece of the cut is lost but those made only of white space: every
/// piece of the cut (the piece number `k` starts `k * (chunk_size -
/// overlap)` characters in and runs for `chunk_size` characters or to the
/// end) that holds a character other than white space is one of the chunks.
pub proof fn lemma_chunks_keep_every_non_blank_piece(text: Seq<char>, chunk_size: nat, overlap: nat, k: int)
    requires
        overlap < chunk_size,
        text.len() > 0,
        has_piece(text.len() as int, chunk_size as int, chunk_size - overlap, k),
        !all_white(cut_piece(text, chunk_size as int, chunk_size - overlap, k)),
    ensures
        fixed_chunks(text, chunk_size, overlap).contains(
            cut_piece(text, chunk_size as int, chunk_size - overlap, k),
        ),
{
    let step = chunk_size - overlap;
    assert(0 + k * step == k * step);
    lemma_chunks_from_keeps_pieces(text, 0, chunk_size as int, overlap as int, k);
}

/// The piece of the cut that starts `t` steps after `start`.
pub open spec fn piece_after(chars: Seq<char>, start: int, size: int, step: int, t: int) -> Seq<char> {
    let from = start + t * step;
    chars.subrange(from, if from + size < chars.len() { from + size } else { chars.len() as int })
}

proof fn lemma_chunks_from_are_pieces(chars: Seq<char>, start: int, size: int, overlap: int, w: int)
    requires
        0 <= start < chars.len(),
        0 <= overlap < size,
        0 <= w < chunks_from(chars, start, size, overlap).len(),
    ensures
        exists|t: int|
            t >= 0 && (t == 0 || start + (t - 1) * (size - overlap) + size < chars.len())
                && #[trigger] piece_after(chars, start, size, size - overlap, t) == chunks_from(
                chars,
                start,
                size,
                overlap,
            )[w],
    decreases chars.len() - start,
{
    let step = size - overlap;
    let n = chars.len() as int;
    let end = if start + size < n { start + size } else { n };
    let piece = chars.subrange(start, end);
    let cs = chunks_from(chars, start, size, overlap);
    let kept: Seq<Seq<char>> = if all_white(piece) { Seq::empty() } else { seq![piece] };
    assert(0 * step == 0);
    if w < kept.len() {
        assert(piece_after(chars, start, size, step, 0) == cs[w]);
    } else {
        let next = end - overlap;
        let rest = chunks_from(chars, next, size, overlap);
        assert(cs == kept + rest);
        assert(cs[w] == rest[w - kept.len()]);
        lemma_chunks_from_are_pieces(chars, next, size, overlap, w - kept.len());
        let t = choose|t: int|
            t >= 0 && (t == 0 || next + (t - 1) * step + size < n) && #[trigger] piece_after(
                chars,
                next,
                size,
                step,
                t,
            ) == rest[w - kept.len()];
        assert((t + 1) * step == step + t * step) by (nonlinear_arith);
        assert(t * step == step + (t - 1) * step) by (nonlinear_arith);
        assert(t * step >= 0) by (nonlinear_arith)
            requires
                t >= 0,
                step > 0,
        ;
        assert(start + (t + 1) * step == next + t * step);
        assert(piece_after(chars, start, size, step, t + 1) == piece_after(chars, next, size, step, t));
    }
}

/// Every chunk is a piece of the cut (see `cut_piece`) that holds a
/// character other than white space: with the law above, the chunks are
/// exactly the non-blank pieces of the cut.
pub proof fn lemma_every_chunk_is_a_piece(text: Seq<char>, chunk_size: nat, overlap: nat, w: int)
    requires
        overlap < chunk_size,
        0 <= w < fixed_chunks(text, chunk_size, overlap).len(),
    ensures
        !all_white(fixed_chunks(text, chunk_size, overlap)[w]),
        exists|k: int|
            has_piece(text.len() as int, chunk_size as int, chunk_size - overlap, k) && #[trigger] cut_piece(
                text,
                chunk_size as int,
                chunk_size - overlap,
                k,
            ) == fixed_chunks(text, chunk_size, overlap)[w],
{
    let step = chunk_size - overlap;
    lemma_chunks_are_good(text, chunk_size, overlap);
    assert(text.len() > 0);
    lemma_chunks_from_are_pieces(text, 0, chunk_size as int, overlap as int, w);
    let t = choose|t: int|
        t >= 0 && (t == 0 || 0 + (t - 1) * step + chunk_size < text.len()) && #[trigger] piece_after(
            text,
            0,
            chunk_size as int,
            step,
            t,
        ) == fixed_chunks(text, chunk_size, overlap)[w];
    assert(cut_piece(text, chunk_size as int, step, t) == piece_after(text, 0, chunk_size as int, step, t));
}

} // verus!
