//! The dump layout: chunks of sixteen bytes, one line per encoder for each
//! chunk, an octal offset label on the first of them, and a closing line with
//! the final offset.
use vstd::prelude::*;
use crate::digits::{lemma_digits_len, padded, power, push_padded};
use crate::encode::{encoded_line, Encoder};

verus! {

/// Bytes per chunk; the running offset advances by this much per chunk.
pub const CHUNK_SIZE: usize = 16;

/// The offset label: at least seven octal digits, zero-padded.
pub open spec fn offset_label(off: nat) -> Seq<u8> {
    padded(off, 8, 7, 48u8)
}

/// The label of the second and later lines of a chunk.
pub open spec fn blank_label() -> Seq<u8> {
    Seq::new(7, |_i: int| 32u8)
}

/// The lines of the first `n` encoders for one chunk at offset `off`.
pub open spec fn chunk_lines_upto(
    off: nat,
    chunk: Seq<u8>,
    encs: Seq<Encoder>,
    width: nat,
    n: nat,
) -> Seq<u8>
    decreases n,
{
    if n == 0 {
        Seq::empty()
    } else {
        chunk_lines_upto(off, chunk, encs, width, (n - 1) as nat) + (if n == 1 {
            offset_label(off)
        } else {
            blank_label()
        }) + encoded_line(encs[n - 1], chunk, width)
    }
}

/// All lines for one chunk: nothing for an empty chunk.
pub open spec fn chunk_lines(off: nat, chunk: Seq<u8>, encs: Seq<Encoder>, width: nat) -> Seq<u8> {
    if chunk.len() == 0 {
        Seq::empty()
    } else {
        chunk_lines_upto(off, chunk, encs, width, encs.len())
    }
}

/// The closing line: the final running offset alone.
pub open spec fn total_line(off: nat) -> Seq<u8> {
    offset_label(off).push(10u8)
}

/// The encoders in use: the selection, or octal words when nothing is selected.
pub open spec fn effective_encoders(selected: Seq<Encoder>) -> Seq<Encoder> {
    if selected.len() == 0 {
        seq![Encoder::OctalWords]
    } else {
        selected
    }
}

/// The widest minimum column width among `encs` (zero for none).
pub open spec fn max_width(encs: Seq<Encoder>) -> nat
    decreases encs.len(),
{
    if encs.len() == 0 {
        0
    } else {
        let w = max_width(encs.drop_last());
        let m = encs.last().spec_min_width();
        if m > w {
            m
        } else {
            w
        }
    }
}

/// The encoders in use for a selection, in the order selected.
pub fn resolve_encoders(selected: &[Encoder]) -> (r: Vec<Encoder>)
    ensures
        r@ == effective_encoders(selected@),
{
    let mut r: Vec<Encoder> = Vec::new();
    if selected.len() == 0 {
        r.push(Encoder::OctalWords);
        assert(r@ =~= seq![Encoder::OctalWords]);
        return r;
    }
    let mut i: usize = 0;
    while i < selected.len()
        invariant
            i <= selected@.len(),
            r@ == selected@.subrange(0, i as int),
        decreases selected@.len() - i,
    {
        r.push(selected[i]);
        i = i + 1;
        assert(r@ =~= selected@.subrange(0, i as int));
    }
    assert(r@ =~= selected@);
    r
}

/// The column width shared by all encoders: the widest of their minimums.
pub fn column_width(encoders: &[Encoder]) -> (r: usize)
    ensures
        r == max_width(encoders@),
{
    let mut w: usize = 0;
    let mut i: usize = 0;
    while i < encoders.len()
        invariant
            i <= encoders@.len(),
            w == max_width(encoders@.subrange(0, i as int)),
        decreases encoders@.len() - i,
    {
        let ghost p = encoders@.subrange(0, i + 1);
        assert(p.drop_last() =~= encoders@.subrange(0, i as int));
        let m = encoders[i].min_width();
        if m > w {
            w = m;
        }
        i = i + 1;
    }
    assert(encoders@.subrange(0, i as int) =~= encoders@);
    w
}

/// Writes the lines of one non-empty chunk: one per encoder, in order, the
/// first labelled with `offset` and the others with blanks.
pub fn write_chunk(out: &mut Vec<u8>, offset: u64, chunk: &[u8], encoders: &[Encoder], width: usize)
    ensures
        final(out)@ == old(out)@ + chunk_lines(offset as nat, chunk@, encoders@, width as nat),
{
    if chunk.len() == 0 {
        assert(final(out)@ =~= old(out)@);
        return;
    }
    let mut i: usize = 0;
    while i < encoders.len()
        invariant
            chunk@.len() > 0,
            i <= encoders@.len(),
            out@ == old(out)@ + chunk_lines_upto(offset as nat, chunk@, encoders@, width as nat, i as nat),
        decreases encoders@.len() - i,
    {
        let ghost before = out@;
        if i == 0 {
            push_padded(out, offset, 8, 7, 48u8);
        } else {
            let mut k: usize = 0;
            while k < 7
                invariant
                    k <= 7,
                    out@ == before + Seq::new(k as nat, |_j: int| 32u8),
                decreases 7 - k,
            {
                out.push(32u8);
                k = k + 1;
                assert(out@ =~= before + Seq::new(k as nat, |_j: int| 32u8));
            }
            assert(Seq::new(7, |_j: int| 32u8) =~= blank_label());
        }
        encoders[i].write(out, chunk, width);
        i = i + 1;
        assert(out@ =~= old(out)@ + chunk_lines_upto(offset as nat, chunk@, encoders@, width as nat, i as nat));
    }
}

/// Writes the closing line holding the final running offset.
pub fn write_total(out: &mut Vec<u8>, offset: u64)
    ensures
        final(out)@ == old(out)@ + total_line(offset as nat),
{
    push_padded(out, offset, 8, 7, 48u8);
    out.push(10u8);
    assert(final(out)@ =~= old(out)@ + total_line(offset as nat));
}

/// One step of a dump: writes the lines of a chunk that was just read and
/// returns the next running offset and whether to read again. The offset
/// advances by a whole chunk even for a short last chunk; a chunk shorter than
/// `CHUNK_SIZE` ends the input.
pub fn dump_chunk(
    out: &mut Vec<u8>,
    offset: u64,
    chunk: &[u8],
    encoders: &[Encoder],
    width: usize,
) -> (r: (u64, bool))
    requires
        chunk@.len() <= CHUNK_SIZE,
        offset + CHUNK_SIZE <= u64::MAX,
    ensures
        final(out)@ == old(out)@ + chunk_lines(offset as nat, chunk@, encoders@, width as nat),
        r.0 == if chunk@.len() > 0 {
            offset + CHUNK_SIZE
        } else {
            offset as int
        },
        r.1 == (chunk@.len() == CHUNK_SIZE),
{
    write_chunk(out, offset, chunk, encoders, width);
    let next = if chunk.len() > 0 {
        offset + CHUNK_SIZE as u64
    } else {
        offset
    };
    (next, chunk.len() == CHUNK_SIZE)
}

/// Number of chunks read from `len` bytes starting at `off`.
pub open spec fn chunk_count(len: nat, off: nat) -> nat {
    if off >= len {
        0
    } else {
        ((len - off + 15) / 16) as nat
    }
}

/// The `i`-th chunk of `d` read from `off`: sixteen bytes, fewer at the end.
pub open spec fn chunk_at(d: Seq<u8>, off: nat, i: nat) -> Seq<u8> {
    let start = (off + 16 * i) as int;
    let end = if start + 16 <= d.len() {
        start + 16
    } else {
        d.len() as int
    };
    d.subrange(start, end)
}

/// The lines of the first `n` chunks of `d` read from `off`.
pub open spec fn chunks_text(d: Seq<u8>, off: nat, encs: Seq<Encoder>, width: nat, n: nat) -> Seq<u8>
    decreases n,
{
    if n == 0 {
        Seq::empty()
    } else {
        chunks_text(d, off, encs, width, (n - 1) as nat) + chunk_lines(
            off + 16 * (n - 1) as nat,
            chunk_at(d, off, (n - 1) as nat),
            encs,
            width,
        )
    }
}

/// The whole dump of `d` from `off` with the selected encoders.
pub open spec fn dump_text(d: Seq<u8>, off: nat, selected: Seq<Encoder>) -> Seq<u8> {
    let encs = effective_encoders(selected);
    let n = chunk_count(d.len(), off);
    chunks_text(d, off, encs, max_width(encs), n) + total_line(off + 16 * n)
}

fn copy_range(data: &[u8], start: usize, end: usize) -> (r: Vec<u8>)
    requires
        start <= end <= data@.len(),
    ensures
        r@ == data@.subrange(start as int, end as int),
{
    let mut r: Vec<u8> = Vec::new();
    let mut i: usize = start;
    while i < end
        invariant
            start <= i <= end <= data@.len(),
            r@ == data@.subrange(start as int, i as int),
        decreases end - i,
    {
        r.push(data[i]);
        i = i + 1;
        assert(r@ =~= data@.subrange(start as int, i as int));
    }
    r
}

/// Reads `data` from byte `offset` in chunks of `CHUNK_SIZE` bytes, the last
/// one possibly shorter; nothing when `offset` is at or past the end.
pub fn read_chunks(data: &[u8], offset: u64) -> (r: Vec<Vec<u8>>)
    ensures
        r@.len() == chunk_count(data@.len(), offset as nat),
        forall|i: int| 0 <= i < r@.len() ==> (#[trigger] r@[i])@ == chunk_at(data@, offset as nat, i as nat),
        forall|i: int| 0 <= i < r@.len() - 1 ==> (#[trigger] r@[i])@.len() == CHUNK_SIZE,
        offset >= data@.len() ==> r@.len() == 0,
        offset < data@.len() ==> r@.len() == (data@.len() - offset + 15) / 16,
        offset < data@.len() ==> r@.last()@.len() == if (data@.len() - offset) % 16 == 0 {
            16
        } else {
            (data@.len() - offset) % 16
        },
{
    let len = data.len();
    let mut r: Vec<Vec<u8>> = Vec::new();
    if offset >= len as u64 {
        return r;
    }
    let off = offset as usize;
    let mut pos: usize = off;
    while pos < len
        invariant
            off < len == data@.len(),
            off == offset,
            off <= pos <= len,
            pos == off + 16 * r@.len(),
            forall|i: int| 0 <= i < r@.len() ==> (#[trigger] r@[i])@ == chunk_at(data@, off as nat, i as nat),
            forall|i: int| 0 <= i < r@.len() ==> (#[trigger] r@[i])@.len() == CHUNK_SIZE,
        decreases len - pos,
    {
        let end = if len - pos >= CHUNK_SIZE {
            pos + CHUNK_SIZE
        } else {
            len
        };
        let chunk = copy_range(data, pos, end);
        let ghost k = r@.len();
        r.push(chunk);
        assert(r@[k as int]@ == chunk_at(data@, off as nat, k as nat));
        if end - pos < CHUNK_SIZE {
            assert(end == len);
            assert(r@.len() == chunk_count(data@.len(), offset as nat));
            assert(r@.last()@.len() == (data@.len() - offset) % 16);
            return r;
        }
        pos = end;
    }
    assert(r@.len() == chunk_count(data@.len(), offset as nat));
    r
}

/// Dumps `data` from byte `offset` with the selected encoders (octal words when
/// none is selected): the lines of every chunk, then the closing offset line.
pub fn dump(data: &[u8], offset: u64, selected: &[Encoder]) -> (r: Vec<u8>)
    requires
        offset + data@.len() + CHUNK_SIZE <= u64::MAX,
    ensures
        r@ == dump_text(data@, offset as nat, selected@),
{
    let encoders = resolve_encoders(selected);
    let width = column_width(encoders.as_slice());
    let chunks = read_chunks(data, offset);
    let ghost n = chunks@.len();
    let mut out: Vec<u8> = Vec::new();
    let mut running: u64 = offset;
    let mut i: usize = 0;
    while i < chunks.len()
        invariant
            n == chunks@.len() == chunk_count(data@.len(), offset as nat),
            forall|j: int| 0 <= j < n ==> (#[trigger] chunks@[j])@ == chunk_at(data@, offset as nat, j as nat),
            offset + data@.len() + CHUNK_SIZE <= u64::MAX,
            encoders@ == effective_encoders(selected@),
            width == max_width(encoders@),
            i <= n,
            running == offset + 16 * i,
            out@ == chunks_text(data@, offset as nat, encoders@, width as nat, i as nat),
        decreases n - i,
    {
        assert(chunks@[i as int]@.len() > 0);
        let r = dump_chunk(&mut out, running, chunks[i].as_slice(), encoders.as_slice(), width);
        running = r.0;
        i = i + 1;
    }
    write_total(&mut out, running);
    out
}

/// Every line of a chunk starts in the same column: below `0o10000000` the
/// offset label on the first line is exactly as wide as the blank label of the
/// lines after it.
pub proof fn lemma_labels_align(off: nat)
    requires
        off < 0o10000000,
    ensures
        offset_label(off).len() == blank_label().len(),
{
    assert(power(8, 7) == 0o10000000) by {
        reveal_with_fuel(power, 8);
    }
    lemma_digits_len(off, 8, 7);
}

} // verus!
