//! The body bridge in the response direction: a lazy, finite, non-restartable
//! sequence of byte chunks pulled from a reader with fixed-size reads.

use vstd::prelude::*;

verus! {

/// The size of each read.
pub const CHUNK_SIZE: usize = 16384;

/// The bytes of the chunks, one after another.
pub open spec fn concat(chunks: Seq<Seq<u8>>) -> Seq<u8>
    decreases chunks.len(),
{
    if chunks.len() == 0 {
        Seq::empty()
    } else {
        concat(chunks.drop_last()) + chunks.last()
    }
}

/// The chunks as byte sequences.
pub open spec fn chunk_bytes(chunks: Seq<Vec<u8>>) -> Seq<Seq<u8>> {
    chunks.map_values(|c: Vec<u8>| c@)
}

/// A fresh buffer for one read: `CHUNK_SIZE` zero bytes.
pub fn read_buffer() -> (r: Vec<u8>)
    ensures
        r@.len() == CHUNK_SIZE,
{
    let mut buf: Vec<u8> = Vec::with_capacity(CHUNK_SIZE);
    while buf.len() < CHUNK_SIZE
        invariant
            buf@.len() <= CHUNK_SIZE,
        decreases CHUNK_SIZE - buf@.len(),
    {
        buf.push(0u8);
    }
    buf
}

/// The state of a chunk sequence: whether the reader has signalled its end.
pub struct ChunkState {
    pub finished: bool,
}

impl ChunkState {
    /// A sequence that has not yielded anything yet.
    pub fn new() -> (r: Self)
        ensures
            !r.finished,
    {
        ChunkState { finished: false }
    }

    /// Whether the sequence has ended.
    pub fn is_finished(&self) -> (r: bool)
        ensures
            r == self.finished,
    {
        self.finished
    }

    /// Decides what a read of `len` bytes into `buf` yields. A read of zero
    /// bytes ends the sequence; any other read, short or full, yields exactly
    /// the bytes read (never more than the buffer holds). Once ended, the
    /// sequence yields nothing more, whatever is read.
    pub fn on_read(&mut self, buf: Vec<u8>, len: usize) -> (r: Option<Vec<u8>>)
        ensures
            old(self).finished ==> r is None && final(self).finished,
            !old(self).finished && len == 0 ==> r is None && final(self).finished,
            !old(self).finished && len > 0 ==> (r matches Some(c) && c@ == if len <= buf@.len() {
                buf@.take(len as int)
            } else {
                buf@
            } && !final(self).finished),
    {
        if self.finished {
            return None;
        }
        if len == 0 {
            self.finished = true;
            return None;
        }
        let mut buf = buf;
        buf.truncate(len);
        Some(buf)
    }
}

/// Reads from an in-memory body at `pos` into `buf`: as many bytes as fit,
/// up to the end of the body.
pub fn read_from(src: &Vec<u8>, pos: usize, buf: &mut Vec<u8>) -> (n: usize)
    requires
        pos <= src@.len(),
    ensures
        n == if old(buf)@.len() < src@.len() - pos {
            old(buf)@.len() as int
        } else {
            src@.len() - pos
        },
        final(buf)@.len() == old(buf)@.len(),
        final(buf)@.take(n as int) == src@.subrange(pos as int, pos + n),
{
    let remaining = src.len() - pos;
    let n = if buf.len() < remaining {
        buf.len()
    } else {
        remaining
    };
    let mut i: usize = 0;
    while i < n
        invariant
            i <= n,
            n <= buf@.len(),
            pos + n <= src@.len(),
            src@.len() <= usize::MAX,
            buf@.len() == old(buf)@.len(),
            forall|k: int| 0 <= k < i ==> buf@[k] == src@[pos + k],
        decreases n - i,
    {
        buf.set(i, src[pos + i]);
        i = i + 1;
    }
    assert(buf@.take(n as int) =~= src@.subrange(pos as int, pos + n));
    n
}

/// The chunks that the bridge yields for a body held in memory: full chunks
/// of `CHUNK_SIZE` bytes and a shorter last one, which together are exactly
/// the body.
pub fn buffered_chunks(data: &Vec<u8>) -> (r: Vec<Vec<u8>>)
    ensures
        concat(chunk_bytes(r@)) == data@,
        forall|i: int| 0 <= i < r@.len() ==> 0 < (#[trigger] r@[i])@.len() <= CHUNK_SIZE,
        forall|i: int| 0 <= i < r@.len() - 1 ==> (#[trigger] r@[i])@.len() == CHUNK_SIZE,
{
    let mut state = ChunkState::new();
    let mut pos: usize = 0;
    let mut out: Vec<Vec<u8>> = Vec::new();
    let total = data.len();
    loop
        invariant_except_break
            !state.finished,
        invariant
            pos <= data@.len(),
            total == data@.len(),
            concat(chunk_bytes(out@)) == data@.take(pos as int),
            forall|i: int| 0 <= i < out@.len() ==> 0 < (#[trigger] out@[i])@.len() <= CHUNK_SIZE,
            forall|i: int| 0 <= i < out@.len() - 1 ==> (#[trigger] out@[i])@.len() == CHUNK_SIZE,
            out@.len() > 0 && pos < data@.len() ==> out@.last()@.len() == CHUNK_SIZE,
        ensures
            pos == data@.len(),
        decreases data@.len() - pos,
    {
        let mut buf = read_buffer();
        let n = read_from(data, pos, &mut buf);
        assert(n <= data@.len() - pos);
        assert(pos < data@.len() ==> n > 0);
        let ghost bytes = buf@;
        match state.on_read(buf, n) {
            Some(c) => {
                let ghost before = out@;
                out.push(c);
                assert(chunk_bytes(out@).drop_last() =~= chunk_bytes(before));
                assert(data@.take(pos + n) =~= data@.take(pos as int) + data@.subrange(
                    pos as int,
                    pos + n,
                ));
                pos = pos + n;
            },
            None => {
                break ;
            },
        }
    }
    assert(data@.take(pos as int) =~= data@);
    out
}

} // verus!
