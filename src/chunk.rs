//! Slicing a serialized result set into windows of bounded size.
use vstd::prelude::*;

verus! {

/// How many windows of `size` bytes cover `len` bytes, where the bytes do not
/// fit one window below `size` (none where they do).
pub open spec fn chunk_count(len: int, size: int) -> int {
    if len >= size {
        (len + size - 1) / size
    } else {
        0
    }
}

/// The `chunk`-th window of `size` bytes (empty past the end).
pub open spec fn window(bytes: Seq<u8>, chunk: int, size: int) -> Seq<u8> {
    let start = chunk * size;
    if start >= bytes.len() {
        Seq::empty()
    } else if start + size >= bytes.len() {
        bytes.subrange(start, bytes.len() as int)
    } else {
        bytes.subrange(start, start + size)
    }
}

/// A chunk below the count starts inside the bytes.
proof fn lemma_window_start(chunk: int, size: int, len: int)
    requires
        size > 0,
        len >= 0,
        0 <= chunk,
        chunk < (len + size - 1) / size,
    ensures
        chunk * size < len,
{
    assert((chunk + 1) * size <= len + size - 1) by (nonlinear_arith)
        requires
            size > 0,
            chunk + 1 <= (len + size - 1) / size,
            len + size - 1 >= 0,
    ;
    assert((chunk + 1) * size == chunk * size + size) by (nonlinear_arith);
}

/// A chunk at or past the count starts past the bytes.
proof fn lemma_past_end(chunk: int, size: int, len: int)
    requires
        size > 0,
        len >= 0,
        chunk >= (len + size - 1) / size,
    ensures
        chunk * size >= len,
{
    let q = (len + size - 1) / size;
    assert(q * size > len - size) by (nonlinear_arith)
        requires
            size > 0,
            q == (len + size - 1) / size,
            len + size - 1 >= 0,
    ;
    assert(chunk * size >= q * size) by (nonlinear_arith)
        requires
            size > 0,
            chunk >= q,
    ;
    assert(q * size >= len) by (nonlinear_arith)
        requires
            size > 0,
            q == (len + size - 1) / size,
            len + size - 1 >= 0,
    ;
}

/// Returns the `chunk`-th window of `max_bytes_per_chunk` bytes, with
/// (chunk, number of windows); bytes that fit below one window come back
/// whole, with (0, 0).
pub fn chunk_bytes(bytes: &Vec<u8>, chunk: usize, max_bytes_per_chunk: usize) -> (r: (Vec<u8>, (usize, usize)))
    requires
        max_bytes_per_chunk > 0,
    ensures
        bytes@.len() < max_bytes_per_chunk ==> r.0@ == bytes@ && r.1 == (0usize, 0usize),
        bytes@.len() >= max_bytes_per_chunk ==> {
            &&& r.0@ == window(bytes@, chunk as int, max_bytes_per_chunk as int)
            &&& r.1.0 == chunk
            &&& r.1.1 == chunk_count(bytes@.len() as int, max_bytes_per_chunk as int)
        },
{
    let len = bytes.len();
    let size = max_bytes_per_chunk;
    if len < size {
        return (bytes.clone(), (0, 0));
    }
    let q = len / size;
    let total: usize = if len % size == 0 {
        q
    } else {
        assert(q < len) by (nonlinear_arith)
            requires
                size >= 2,
                q == len / size,
                len > 0,
        ;
        q + 1
    };
    assert(total as int == (len as int + size as int - 1) / (size as int)) by (nonlinear_arith)
        requires
            size > 0,
            total as int == len as int / size as int + if len as int % size as int == 0 { 0int } else { 1int },
    ;
    let mut out: Vec<u8> = Vec::new();
    if chunk < total {
        proof {
            lemma_window_start(chunk as int, size as int, len as int);
        }
        let start = chunk * size;
        let take = if len - start < size { len - start } else { size };
        let mut i: usize = 0;
        while i < take
            invariant
                start + take <= len,
                len == bytes@.len(),
                i <= take,
                out@ == bytes@.subrange(start as int, start + i),
            decreases take - i,
        {
            out.push(bytes[start + i]);
            assert(bytes@.subrange(start as int, start + i + 1) =~= bytes@.subrange(start as int, start + i).push(bytes@[start + i]));
            i = i + 1;
        }
    } else {
        proof {
            lemma_past_end(chunk as int, size as int, len as int);
        }
    }
    (out, (chunk, total))
}

} // verus!
