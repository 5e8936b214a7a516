//! Splitting text into overlapping windows of characters for embedding.
use vstd::prelude::*;
use crate::text::{chars_of, string_of_range};

verus! {

/// A chunk as the contracts see it: its characters, its start and its end (character indices).
pub open spec fn chunk_view(c: (String, usize, usize)) -> (Seq<char>, int, int) {
    (c.0@, c.1 as int, c.2 as int)
}

pub open spec fn chunk_views(v: Seq<(String, usize, usize)>) -> Seq<(Seq<char>, int, int)> {
    v.map_values(|c: (String, usize, usize)| chunk_view(c))
}

/// The inputs on which chunking terminates: an empty text, a window that covers the
/// whole text, or a window that advances (the overlap is smaller than the window).
pub open spec fn chunking_terminates(n: int, size: int, overlap: int) -> bool {
    n == 0 || size >= n || overlap < size
}

/// `chunks` is the chunking of `text` into windows of `size` characters, each window
/// starting `size - overlap` characters after the previous one, the last window being
/// the first that reaches the end of the text.
pub open spec fn is_chunking(
    text: Seq<char>,
    size: int,
    overlap: int,
    chunks: Seq<(Seq<char>, int, int)>,
) -> bool {
    let n = text.len() as int;
    if n == 0 {
        chunks.len() == 0
    } else {
        &&& chunks.len() >= 1
        &&& forall|i: int|
            #![trigger chunks[i]]
            0 <= i < chunks.len() ==> {
                &&& chunks[i].1 == i * (size - overlap)
                &&& chunks[i].2 == (if chunks[i].1 + size < n {
                    chunks[i].1 + size
                } else {
                    n
                })
                &&& 0 <= chunks[i].1 < chunks[i].2 <= n
                &&& chunks[i].0 == text.subrange(chunks[i].1, chunks[i].2)
            }
        &&& forall|i: int| #![trigger chunks[i]] 0 <= i < chunks.len() - 1 ==> chunks[i].1 + size < n
        &&& chunks.last().1 + size >= n
    }
}

/// Chunks `text` into windows of `chunk_size` characters that overlap by `overlap`
/// characters, giving each window with its start and end character index.
pub fn chunk_text(text: &str, chunk_size: usize, overlap: usize) -> (res: Vec<(String, usize, usize)>)
    requires
        chunking_terminates(text@.len() as int, chunk_size as int, overlap as int),
    ensures
        is_chunking(text@, chunk_size as int, overlap as int, chunk_views(res@)),
{
    let mut chunks: Vec<(String, usize, usize)> = Vec::new();
    let chars = chars_of(text);
    let len = chars.len();
    if len == 0 {
        assert(chunk_views(chunks@) =~= Seq::<(Seq<char>, int, int)>::empty());
        return chunks;
    }
    let ghost step: int = chunk_size - overlap;
    let ghost n: int = len as int;
    let mut start: usize = 0;
    let ghost mut i: int = 0;
    assert(0 * step == 0) by (nonlinear_arith);
    loop
        invariant
            chars@ == text@,
            len == chars.len(),
            n == len,
            len > 0,
            step == chunk_size - overlap,
            chunking_terminates(n, chunk_size as int, overlap as int),
            chunks.len() == i,
            start == i * step,
            start < len,
            forall|j: int|
                #![trigger chunks@[j]]
                0 <= j < i ==> {
                    let c = chunk_view(chunks@[j]);
                    &&& c.1 == j * step
                    &&& c.2 == (if c.1 + chunk_size < n {
                        c.1 + chunk_size
                    } else {
                        n
                    })
                    &&& 0 <= c.1 < c.2 <= n
                    &&& c.0 == text@.subrange(c.1, c.2)
                    &&& c.1 + chunk_size < n
                },
        decreases len - start,
    {
        let end = if chunk_size >= len - start {
            len
        } else {
            start + chunk_size
        };
        let piece = string_of_range(&chars, start, end);
        let ghost prev = chunks@;
        chunks.push((piece, start, end));
        assert(chunks@[i] == (piece, start, end));
        if end >= len {
            proof {
                let v = chunk_views(chunks@);
                assert(v.len() == i + 1);
                assert forall|j: int| #![trigger v[j]] 0 <= j < v.len() implies {
                    &&& v[j].1 == j * step
                    &&& v[j].2 == (if v[j].1 + chunk_size < n {
                        v[j].1 + chunk_size
                    } else {
                        n
                    })
                    &&& 0 <= v[j].1 < v[j].2 <= n
                    &&& v[j].0 == text@.subrange(v[j].1, v[j].2)
                } by {
                    if j < i {
                        assert(chunks@[j] == prev[j]);
                    }
                }
                assert forall|j: int| #![trigger v[j]] 0 <= j < v.len() - 1 implies v[j].1
                    + chunk_size < n by {
                    assert(chunks@[j] == prev[j]);
                }
            }
            return chunks;
        }
        proof {
            assert forall|j: int| #![trigger chunks@[j]] 0 <= j < i + 1 implies {
                let c = chunk_view(chunks@[j]);
                &&& c.1 == j * step
                &&& c.2 == (if c.1 + chunk_size < n {
                    c.1 + chunk_size
                } else {
                    n
                })
                &&& 0 <= c.1 < c.2 <= n
                &&& c.0 == text@.subrange(c.1, c.2)
                &&& c.1 + chunk_size < n
            } by {
                if j < i {
                    assert(chunks@[j] == prev[j]);
                }
            }
            assert((i + 1) * step == i * step + step) by (nonlinear_arith);
        }
        start = start + (chunk_size - overlap);
        proof {
            i = i + 1;
        }
    }
}

/// Joins chunk contents back together, dropping from each chunk but the last the
/// `overlap` characters that the next chunk repeats.
pub open spec fn stitch(chunks: Seq<(Seq<char>, int, int)>, overlap: int) -> Seq<char>
    decreases chunks.len(),
{
    if chunks.len() == 0 {
        Seq::empty()
    } else if chunks.len() == 1 {
        chunks[0].0
    } else {
        chunks[0].0.take(chunks[0].0.len() - overlap) + stitch(chunks.drop_first(), overlap)
    }
}

proof fn lemma_stitch_suffix(
    text: Seq<char>,
    size: int,
    overlap: int,
    chunks: Seq<(Seq<char>, int, int)>,
    i: int,
)
    requires
        is_chunking(text, size, overlap, chunks),
        chunking_terminates(text.len() as int, size, overlap),
        0 <= i < chunks.len(),
        0 <= overlap,
    ensures
        stitch(chunks.skip(i), overlap) == text.skip(chunks[i].1),
    decreases chunks.len() - i,
{
    let n = text.len() as int;
    let rest = chunks.skip(i);
    assert(rest[0] == chunks[i]);
    if i == chunks.len() - 1 {
        assert(rest.len() == 1);
        assert(chunks[i].1 + size >= n);
        assert(text.subrange(chunks[i].1, n) =~= text.skip(chunks[i].1));
    } else {
        lemma_stitch_suffix(text, size, overlap, chunks, i + 1);
        assert(rest.drop_first() =~= chunks.skip(i + 1));
        let c = chunks[i];
        let d = chunks[i + 1];
        assert(c.1 + size < n);
        assert(size < n);
        assert(overlap < size);
        assert(d.1 == (i + 1) * (size - overlap));
        assert((i + 1) * (size - overlap) == i * (size - overlap) + (size - overlap))
            by (nonlinear_arith);
        assert(c.0.take(c.0.len() - overlap) =~= text.subrange(c.1, d.1));
        assert(text.subrange(c.1, d.1) + text.skip(d.1) =~= text.skip(c.1));
    }
}

/// Stitching the chunks of a text back together, each chunk but the last
/// without the overlap the next chunk repeats, gives back the whole text.
pub proof fn lemma_chunks_reassemble(
    text: Seq<char>,
    size: int,
    overlap: int,
    chunks: Seq<(Seq<char>, int, int)>,
)
    requires
        is_chunking(text, size, overlap, chunks),
        chunking_terminates(text.len() as int, size, overlap),
        0 <= overlap,
    ensures
        stitch(chunks, overlap) == text,
{
    if text.len() == 0 {
        assert(text =~= Seq::<char>::empty());
    } else {
        lemma_stitch_suffix(text, size, overlap, chunks, 0);
        assert(chunks.skip(0) =~= chunks);
        assert(0 * (size - overlap) == 0) by (nonlinear_arith);
        assert(text.skip(0) =~= text);
    }
}

/// Each chunk repeats, at its start, the last `overlap` characters of the chunk before it.
pub proof fn lemma_chunks_overlap(
    text: Seq<char>,
    size: int,
    overlap: int,
    chunks: Seq<(Seq<char>, int, int)>,
    i: int,
)
    requires
        is_chunking(text, size, overlap, chunks),
        chunking_terminates(text.len() as int, size, overlap),
        0 <= overlap,
        0 <= i < chunks.len() - 1,
    ensures
        chunks[i + 1].0.take(overlap) == chunks[i].0.skip(size - overlap),
{
    let n = text.len() as int;
    let c = chunks[i];
    let d = chunks[i + 1];
    assert(c.1 + size < n);
    assert((i + 1) * (size - overlap) == i * (size - overlap) + (size - overlap))
        by (nonlinear_arith);
    assert(d.2 >= c.2);
    assert(chunks[i + 1].0.take(overlap) =~= text.subrange(d.1, d.1 + overlap));
    assert(chunks[i].0.skip(size - overlap) =~= text.subrange(d.1, d.1 + overlap));
}

/// Every chunk holds at least one and at most `size` characters, and every
/// chunk but the last holds exactly `size`.
pub proof fn lemma_chunk_lengths(
    text: Seq<char>,
    size: int,
    overlap: int,
    chunks: Seq<(Seq<char>, int, int)>,
    i: int,
)
    requires
        is_chunking(text, size, overlap, chunks),
        0 <= i < chunks.len(),
    ensures
        0 < chunks[i].0.len() <= size,
        i < chunks.len() - 1 ==> chunks[i].0.len() == size,
{
    if i < chunks.len() - 1 {
        assert(chunks[i].1 + size < text.len());
    }
}

} // verus!
