//! The column encoders: each renders one chunk of bytes as one line of text.
use vstd::prelude::*;
use crate::digits::{
    lemma_read_digits, lemma_read_padded, lemma_read_skips_prefix, pad_left, padded,
    push_left_padded, push_padded, read_number,
};

verus! {

/// The notations a chunk can be rendered in.
#[derive(Debug, Clone, Copy, PartialEq, Eq, Structural)]
pub enum Encoder {
    /// Each byte as three octal digits.
    OctalBytes,
    /// Each little-endian 16-bit word as six octal digits.
    OctalWords,
    /// Each little-endian 16-bit word in decimal.
    DecimalWords,
    /// Each little-endian 16-bit word as four hex digits.
    HexWords,
    /// Each byte as a character, an escape or three octal digits.
    AsciiChars,
}

impl Encoder {
    pub open spec fn spec_min_width(self) -> nat {
        match self {
            Encoder::OctalBytes => 7,
            Encoder::OctalWords => 6,
            Encoder::DecimalWords => 5,
            Encoder::HexWords => 4,
            Encoder::AsciiChars => 7,
        }
    }

    /// The narrowest column that this notation asks for.
    pub fn min_width(&self) -> (r: usize)
        ensures
            r == self.spec_min_width(),
    {
        match self {
            Encoder::OctalBytes => 7,
            Encoder::OctalWords => 6,
            Encoder::DecimalWords => 5,
            Encoder::HexWords => 4,
            Encoder::AsciiChars => 7,
        }
    }
}

pub open spec fn octal_byte_cell(b: u8) -> Seq<u8> {
    seq![32u8] + padded(b as nat, 8, 3, 48u8)
}

/// The octal cells of every byte of `d`.
pub open spec fn octal_byte_cells(d: Seq<u8>) -> Seq<u8>
    decreases d.len(),
{
    if d.len() == 0 {
        Seq::empty()
    } else {
        octal_byte_cells(d.drop_last()) + octal_byte_cell(d.last())
    }
}

pub open spec fn octal_bytes_line(d: Seq<u8>) -> Seq<u8> {
    octal_byte_cells(d).push(10u8)
}

/// Number of 16-bit words in `d`, a lone last byte counting as one.
pub open spec fn word_count(d: Seq<u8>) -> nat {
    ((d.len() + 1) / 2) as nat
}

/// The `k`-th little-endian word of `d`, a missing high byte read as zero.
pub open spec fn word_at(d: Seq<u8>, k: int) -> nat {
    let lo = d[2 * k] as nat;
    if 2 * k + 1 < d.len() {
        lo + 256 * (d[2 * k + 1] as nat)
    } else {
        lo
    }
}

/// A word written with `digits` digits (padded with `fill`) in `radix`, then
/// right-justified in a column of `width`.
pub open spec fn word_cell(w: nat, width: nat, radix: nat, digits: nat, fill: u8) -> Seq<u8> {
    seq![32u8] + pad_left(padded(w, radix, digits, fill), width, 32u8)
}

/// The cells of the first `n` words of `d`.
pub open spec fn word_cells(d: Seq<u8>, n: nat, width: nat, radix: nat, digits: nat, fill: u8) -> Seq<u8>
    decreases n,
{
    if n == 0 {
        Seq::empty()
    } else {
        word_cells(d, (n - 1) as nat, width, radix, digits, fill) + word_cell(
            word_at(d, n - 1),
            width,
            radix,
            digits,
            fill,
        )
    }
}

pub open spec fn words_line(d: Seq<u8>, width: nat, radix: nat, digits: nat, fill: u8) -> Seq<u8> {
    word_cells(d, word_count(d), width, radix, digits, fill).push(10u8)
}

pub open spec fn octal_words_line(d: Seq<u8>, width: nat) -> Seq<u8> {
    words_line(d, width, 8, 6, 48u8)
}

pub open spec fn decimal_words_line(d: Seq<u8>, width: nat) -> Seq<u8> {
    words_line(d, width, 10, 5, 32u8)
}

pub open spec fn hex_words_line(d: Seq<u8>, width: nat) -> Seq<u8> {
    words_line(d, width, 16, 4, 48u8)
}

/// The letter of the backslash escape of a control byte from 7 to 13.
pub open spec fn escape_letter(b: u8) -> u8 {
    if b == 7 {
        103u8
    } else if b == 8 {
        98u8
    } else if b == 9 {
        116u8
    } else if b == 10 {
        110u8
    } else if b == 11 {
        118u8
    } else if b == 12 {
        102u8
    } else {
        114u8
    }
}

/// A byte as a four-column cell: an escape, the character itself, or octal.
pub open spec fn ascii_cell(b: u8) -> Seq<u8> {
    if 7 <= b <= 13 {
        seq![32u8, 32u8, 92u8, escape_letter(b)]
    } else if b < 32 || b > 126 {
        octal_byte_cell(b)
    } else {
        seq![32u8, 32u8, 32u8, b]
    }
}

pub open spec fn ascii_cells(d: Seq<u8>) -> Seq<u8>
    decreases d.len(),
{
    if d.len() == 0 {
        Seq::empty()
    } else {
        ascii_cells(d.drop_last()) + ascii_cell(d.last())
    }
}

pub open spec fn ascii_chars_line(d: Seq<u8>) -> Seq<u8> {
    ascii_cells(d).push(10u8)
}

/// Writes a chunk as octal byte values, one line.
pub fn write_oct_bytes(out: &mut Vec<u8>, data: &[u8], _width: usize) -> (r: usize)
    ensures
        final(out)@ == old(out)@ + octal_bytes_line(data@),
        r == data@.len(),
{
    let mut i: usize = 0;
    while i < data.len()
        invariant
            i <= data@.len(),
            out@ == old(out)@ + octal_byte_cells(data@.subrange(0, i as int)),
        decreases data@.len() - i,
    {
        let ghost p = data@.subrange(0, i + 1);
        assert(p.drop_last() =~= data@.subrange(0, i as int));
        out.push(32u8);
        push_padded(out, data[i] as u64, 8, 3, 48u8);
        i = i + 1;
        assert(out@ =~= old(out)@ + octal_byte_cells(data@.subrange(0, i as int)));
    }
    assert(data@.subrange(0, i as int) =~= data@);
    out.push(10u8);
    assert(final(out)@ =~= old(out)@ + octal_bytes_line(data@));
    data.len()
}

/// Writes every little-endian word of a chunk, one line.
fn write_words(
    out: &mut Vec<u8>,
    data: &[u8],
    width: usize,
    radix: u64,
    digits: usize,
    fill: u8,
) -> (r: usize)
    requires
        2 <= radix <= 16,
    ensures
        final(out)@ == old(out)@ + words_line(data@, width as nat, radix as nat, digits as nat, fill),
        r == data@.len(),
{
    let len = data.len();
    let nwords = len / 2 + len % 2;
    assert(nwords == word_count(data@));
    let mut k: usize = 0;
    while k < nwords
        invariant
            len == data@.len(),
            nwords == word_count(data@),
            2 <= radix <= 16,
            k <= word_count(data@),
            out@ == old(out)@ + word_cells(data@, k as nat, width as nat, radix as nat, digits as nat, fill),
        decreases nwords - k,
    {
        let lo = data[2 * k] as u64;
        let w: u64 = if 2 * k + 1 < len {
            lo + 256 * (data[2 * k + 1] as u64)
        } else {
            lo
        };
        assert(w == word_at(data@, k as int));
        let mut cell: Vec<u8> = Vec::new();
        push_padded(&mut cell, w, radix, digits, fill);
        out.push(32u8);
        push_left_padded(out, cell.as_slice(), width, 32u8);
        k = k + 1;
        assert(out@ =~= old(out)@ + word_cells(data@, k as nat, width as nat, radix as nat, digits as nat, fill));
    }
    assert(k == word_count(data@));
    out.push(10u8);
    assert(final(out)@ =~= old(out)@ + words_line(data@, width as nat, radix as nat, digits as nat, fill));
    len
}

/// Writes a chunk as octal little-endian words, right-justified in `width`.
pub fn write_oct_words(out: &mut Vec<u8>, data: &[u8], width: usize) -> (r: usize)
    ensures
        final(out)@ == old(out)@ + octal_words_line(data@, width as nat),
        r == data@.len(),
{
    write_words(out, data, width, 8, 6, 48u8)
}

/// Writes a chunk as decimal little-endian words, right-justified in `width`.
pub fn write_dec_words(out: &mut Vec<u8>, data: &[u8], width: usize) -> (r: usize)
    ensures
        final(out)@ == old(out)@ + decimal_words_line(data@, width as nat),
        r == data@.len(),
{
    write_words(out, data, width, 10, 5, 32u8)
}

/// Writes a chunk as hexadecimal little-endian words, right-justified in `width`.
pub fn write_hex_words(out: &mut Vec<u8>, data: &[u8], width: usize) -> (r: usize)
    ensures
        final(out)@ == old(out)@ + hex_words_line(data@, width as nat),
        r == data@.len(),
{
    write_words(out, data, width, 16, 4, 48u8)
}

/// Writes one byte as a character, a backslash escape, or octal.
pub fn write_ascii_char(out: &mut Vec<u8>, byte: u8)
    ensures
        final(out)@ == old(out)@ + ascii_cell(byte),
{
    if 7 <= byte && byte <= 13 {
        let letter: u8 = if byte == 7 {
            103
        } else if byte == 8 {
            98
        } else if byte == 9 {
            116
        } else if byte == 10 {
            110
        } else if byte == 11 {
            118
        } else if byte == 12 {
            102
        } else {
            114
        };
        out.push(32u8);
        out.push(32u8);
        out.push(92u8);
        out.push(letter);
    } else if byte < 32 || byte > 126 {
        out.push(32u8);
        push_padded(out, byte as u64, 8, 3, 48u8);
    } else {
        out.push(32u8);
        out.push(32u8);
        out.push(32u8);
        out.push(byte);
    }
    assert(final(out)@ =~= old(out)@ + ascii_cell(byte));
}

/// Writes a chunk as characters, escapes and octal values, one line.
pub fn write_ascii_chars(out: &mut Vec<u8>, data: &[u8], _width: usize) -> (r: usize)
    ensures
        final(out)@ == old(out)@ + ascii_chars_line(data@),
        r == data@.len(),
{
    let mut i: usize = 0;
    while i < data.len()
        invariant
            i <= data@.len(),
            out@ == old(out)@ + ascii_cells(data@.subrange(0, i as int)),
        decreases data@.len() - i,
    {
        let ghost p = data@.subrange(0, i + 1);
        assert(p.drop_last() =~= data@.subrange(0, i as int));
        write_ascii_char(out, data[i]);
        i = i + 1;
        assert(out@ =~= old(out)@ + ascii_cells(data@.subrange(0, i as int)));
    }
    assert(data@.subrange(0, i as int) =~= data@);
    out.push(10u8);
    assert(final(out)@ =~= old(out)@ + ascii_chars_line(data@));
    data.len()
}

/// The line that encoder `e` renders for chunk `d` in columns of `width`.
pub open spec fn encoded_line(e: Encoder, d: Seq<u8>, width: nat) -> Seq<u8> {
    match e {
        Encoder::OctalBytes => octal_bytes_line(d),
        Encoder::OctalWords => octal_words_line(d, width),
        Encoder::DecimalWords => decimal_words_line(d, width),
        Encoder::HexWords => hex_words_line(d, width),
        Encoder::AsciiChars => ascii_chars_line(d),
    }
}

impl Encoder {
    /// Writes `data` in this notation; returns the number of bytes consumed.
    pub fn write(&self, out: &mut Vec<u8>, data: &[u8], width: usize) -> (r: usize)
        ensures
            final(out)@ == old(out)@ + encoded_line(*self, data@, width as nat),
            r == data@.len(),
    {
        match self {
            Encoder::OctalBytes => write_oct_bytes(out, data, width),
            Encoder::OctalWords => write_oct_words(out, data, width),
            Encoder::DecimalWords => write_dec_words(out, data, width),
            Encoder::HexWords => write_hex_words(out, data, width),
            Encoder::AsciiChars => write_ascii_chars(out, data, width),
        }
    }
}

/// The radix of a word encoder.
pub open spec fn word_radix(e: Encoder) -> nat {
    match e {
        Encoder::DecimalWords => 10,
        Encoder::HexWords => 16,
        _ => 8,
    }
}

/// Reading the line of a two-byte chunk back in the encoder's radix, spaces and
/// leading zeros skipped, gives the little-endian word of the two bytes, for
/// each of the word encoders and any column width.
pub proof fn lemma_word_round_trip(e: Encoder, lo: u8, hi: u8, width: nat)
    requires
        e is OctalWords || e is DecimalWords || e is HexWords,
    ensures
        read_number(encoded_line(e, seq![lo, hi], width).drop_last(), word_radix(e)) == lo + 256 * hi,
{
    let d = seq![lo, hi];
    let w = word_at(d, 0);
    assert(w == lo + 256 * hi);
    let r = word_radix(e);
    let (digits, fill): (nat, u8) = match e {
        Encoder::DecimalWords => (5, 32u8),
        Encoder::HexWords => (4, 48u8),
        _ => (6, 48u8),
    };
    assert(word_count(d) == 1);
    assert(word_cells(d, 0, width, r, digits, fill) =~= Seq::<u8>::empty());
    let cell = word_cell(w, width, r, digits, fill);
    assert(word_cells(d, 1, width, r, digits, fill) =~= cell);
    assert(encoded_line(e, d, width).drop_last() =~= cell);
    lemma_read_digits(w, r);
    lemma_read_padded(crate::digits::digits_of(w, r), digits, fill, r);
    lemma_read_padded(padded(w, r, digits, fill), width, 32u8, r);
    lemma_read_skips_prefix(seq![32u8], pad_left(padded(w, r, digits, fill), width, 32u8), r);
}

} // verus!
