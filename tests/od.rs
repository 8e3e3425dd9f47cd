use v7dump::dump::{column_width, dump, dump_chunk, read_chunks, resolve_encoders, write_chunk, write_total};
use v7dump::encode::{
    write_ascii_char, write_ascii_chars, write_dec_words, write_hex_words, write_oct_bytes,
    write_oct_words, Encoder,
};
use v7dump::offset::{parse_offset, OffsetError};

fn text(v: &[u8]) -> String {
    String::from_utf8(v.to_vec()).unwrap()
}

#[test]
fn test_parse_offset() {
    match parse_offset("100") {
        Ok(off) => assert!(off == 0o100),
        Err(_) => assert!(false),
    }

    match parse_offset("100.") {
        Ok(off) => assert!(off == 100),
        Err(_) => assert!(false),
    }

    match parse_offset("100b") {
        Ok(off) => assert!(off == 0o100 * 512),
        Err(_) => assert!(false),
    }

    match parse_offset("100.b") {
        Ok(off) => assert!(off == 100 * 512),
        Err(_) => assert!(false),
    }
}

#[test]
fn parse_offset_leading_plus() {
    assert_eq!(parse_offset("+100"), Ok(64));
    assert_eq!(parse_offset("+100."), Ok(100));
    assert_eq!(parse_offset("+100b"), Ok(64 * 512));
    assert_eq!(parse_offset("+100.b"), Ok(100 * 512));
    assert_eq!(parse_offset("0"), Ok(0));
}

#[test]
fn parse_offset_rejects_empty_payload() {
    assert_eq!(parse_offset(""), Err(OffsetError::Empty));
    assert_eq!(parse_offset("b"), Err(OffsetError::Empty));
    assert_eq!(parse_offset(".b"), Err(OffsetError::Empty));
    assert_eq!(parse_offset("."), Err(OffsetError::Empty));
    assert_eq!(parse_offset("+"), Err(OffsetError::Empty));
}

#[test]
fn parse_offset_rejects_non_digits() {
    assert_eq!(parse_offset("xyz"), Err(OffsetError::InvalidDigit));
    assert_eq!(parse_offset("18"), Err(OffsetError::InvalidDigit));
    assert_eq!(parse_offset("1a."), Err(OffsetError::InvalidDigit));
    assert_eq!(parse_offset("++1"), Err(OffsetError::InvalidDigit));
    assert_eq!(parse_offset("é1"), Err(OffsetError::InvalidDigit));
}

#[test]
fn parse_offset_overflow() {
    assert_eq!(parse_offset("18446744073709551615."), Ok(u64::MAX));
    assert_eq!(parse_offset("18446744073709551616."), Err(OffsetError::Overflow));
    assert_eq!(parse_offset("18446744073709551615.b"), Err(OffsetError::Overflow));
}

#[test]
fn chunk_counts_and_last_length() {
    let data: Vec<u8> = (0..40).collect();
    let c = read_chunks(&data, 0);
    assert_eq!(c.len(), 3);
    assert_eq!(c[0], data[0..16].to_vec());
    assert_eq!(c[2], data[32..40].to_vec());
    let c = read_chunks(&data, 8);
    assert_eq!(c.len(), 2);
    assert_eq!(c[1].len(), 16);
    let c = read_chunks(&data, 39);
    assert_eq!(c.len(), 1);
    assert_eq!(c[0], vec![39u8]);
    assert_eq!(read_chunks(&data, 40).len(), 0);
    assert_eq!(read_chunks(&data, 100).len(), 0);
    assert_eq!(read_chunks(&[], 0).len(), 0);
}

#[test]
fn word_encoders_round_trip() {
    let data = [0x34u8, 0x12];
    let mut o = Vec::new();
    assert_eq!(write_oct_words(&mut o, &data, 6), 2);
    assert_eq!(text(&o), " 011064\n");
    assert_eq!(u64::from_str_radix(text(&o).trim(), 8), Ok(0x1234));
    let mut d = Vec::new();
    assert_eq!(write_dec_words(&mut d, &data, 5), 2);
    assert_eq!(text(&d), "  4660\n");
    assert_eq!(u64::from_str_radix(text(&d).trim(), 10), Ok(0x1234));
    let mut h = Vec::new();
    assert_eq!(write_hex_words(&mut h, &data, 4), 2);
    assert_eq!(text(&h), " 1234\n");
    assert_eq!(u64::from_str_radix(text(&h).trim(), 16), Ok(0x1234));
}

#[test]
fn word_encoders_odd_length_and_width() {
    let mut o = Vec::new();
    write_oct_words(&mut o, &[1, 2, 3], 7);
    assert_eq!(text(&o), "  001001  000003\n");
    let mut h = Vec::new();
    write_hex_words(&mut h, &[0xff, 0xff, 0xab], 6);
    assert_eq!(text(&h), "   ffff   00ab\n");
    let mut d = Vec::new();
    write_dec_words(&mut d, &[0xff, 0xff], 7);
    assert_eq!(text(&d), "   65535\n");
}

#[test]
fn octal_bytes_line() {
    let mut o = Vec::new();
    assert_eq!(write_oct_bytes(&mut o, &[0, 8, 255], 7), 3);
    assert_eq!(text(&o), " 000 010 377\n");
}

#[test]
fn ascii_cells() {
    let mut o = Vec::new();
    write_ascii_char(&mut o, 10);
    assert_eq!(text(&o), "  \\n");
    let mut a = Vec::new();
    write_ascii_char(&mut a, 65);
    assert_eq!(text(&a), "   A");
    let mut n = Vec::new();
    write_ascii_char(&mut n, 200);
    assert_eq!(text(&n), " 310");
    assert_eq!(a.len(), n.len());
    assert_eq!(a.len(), o.len());
    let mut all = Vec::new();
    assert_eq!(write_ascii_chars(&mut all, &[7, 8, 9, 11, 12, 13, 0, 32, 126, 127], 7), 10);
    assert_eq!(text(&all), "  \\g  \\b  \\t  \\v  \\f  \\r 000       ~ 177\n");
}

#[test]
fn dump_twenty_bytes_octal_words() {
    let data: Vec<u8> = (0..20).collect();
    let out = dump(&data, 0, &[Encoder::OctalWords]);
    assert_eq!(
        text(&out),
        "0000000 000400 001402 002404 003406 004410 005412 006414 007416\n0000020 010420 011422\n0000040\n"
    );
    assert_eq!(dump(&data, 0, &[]), out);
}

#[test]
fn dump_two_encoders_label_first_line() {
    let out = dump(b"Hi\n\x00", 0, &[Encoder::OctalBytes, Encoder::AsciiChars]);
    assert_eq!(text(&out), "0000000 110 151 012 000\n          H   i  \\n 000\n0000020\n");
}

#[test]
fn dump_from_offset() {
    let data: Vec<u8> = (0..20).collect();
    let out = dump(&data, 18, &[Encoder::HexWords]);
    assert_eq!(text(&out), "0000022 1312\n0000042\n");
    let out = dump(&data, 64, &[Encoder::HexWords]);
    assert_eq!(text(&out), "0000100\n");
}

#[test]
fn encoder_widths() {
    assert_eq!(column_width(&[Encoder::HexWords]), 4);
    assert_eq!(column_width(&[Encoder::HexWords, Encoder::DecimalWords]), 5);
    assert_eq!(column_width(&[Encoder::OctalWords, Encoder::AsciiChars]), 7);
    assert_eq!(resolve_encoders(&[]), vec![Encoder::OctalWords]);
    assert_eq!(
        resolve_encoders(&[Encoder::AsciiChars, Encoder::OctalBytes]),
        vec![Encoder::AsciiChars, Encoder::OctalBytes]
    );
}

#[test]
fn step_by_step_matches_whole_dump() {
    let data: Vec<u8> = (0..20).collect();
    let encs = [Encoder::DecimalWords, Encoder::HexWords];
    let width = column_width(&encs);
    let mut out = Vec::new();
    let (next, more) = dump_chunk(&mut out, 0, &data[0..16], &encs, width);
    assert_eq!((next, more), (16, true));
    let (next, more) = dump_chunk(&mut out, next, &data[16..20], &encs, width);
    assert_eq!((next, more), (32, false));
    write_total(&mut out, next);
    assert_eq!(out, dump(&data, 0, &encs));
    let mut empty = Vec::new();
    write_chunk(&mut empty, 0, &[], &encs, width);
    assert!(empty.is_empty());
    assert_eq!(dump_chunk(&mut empty, 32, &[], &encs, width), (32, false));
}
