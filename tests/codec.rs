use funblink::{
    decode_blink_list, decode_blink_record, encode_blink_list, encode_blink_record,
    encode_list_within, encode_record_within, list_fits_in, record_fits_in, Blink, BlinkList,
    BlinkRecord, ErrorCode,
};

fn blink(id: &str, title: &str) -> Blink {
    Blink::new(
        id.to_string(),
        title.to_string(),
        "i".to_string(),
        "d".to_string(),
        "l".to_string(),
        "p".to_string(),
        "k".to_string(),
    )
}

fn same_blink(a: &Blink, b: &Blink) -> bool {
    a.id == b.id
        && a.title == b.title
        && a.icon == b.icon
        && a.description == b.description
        && a.label == b.label
        && a.to_pubkey == b.to_pubkey
        && a.link == b.link
}

#[test]
fn empty_list_layout() {
    let l = BlinkList::empty();
    assert_eq!(encode_blink_list(&l), vec![0, 0, 0, 0, 0]);
}

#[test]
fn list_layout_is_exact() {
    let l = BlinkList { blinks: vec![blink("a", "é")], is_initialized: true };
    let bytes = encode_blink_list(&l);
    let mut expected: Vec<u8> = vec![1, 0, 0, 0];
    expected.extend_from_slice(&[1, 0, 0, 0, b'a']);
    expected.extend_from_slice(&[2, 0, 0, 0, 0xC3, 0xA9]);
    for c in [b'i', b'd', b'l', b'p', b'k'] {
        expected.extend_from_slice(&[1, 0, 0, 0, c]);
    }
    expected.push(1);
    assert_eq!(bytes, expected);
}

#[test]
fn record_layout_is_exact() {
    let r = BlinkRecord { blink: Blink::empty(), is_initialized: true };
    let mut expected = vec![1u8];
    expected.extend(std::iter::repeat(0u8).take(28));
    assert_eq!(encode_blink_record(&r), expected);
}

#[test]
fn list_round_trip_with_padding() {
    let l = BlinkList { blinks: vec![blink("a", "Buy Coffee"), blink("b", "ünï"), blink("a", "")], is_initialized: true };
    let mut bytes = encode_blink_list(&l);
    bytes.extend(std::iter::repeat(0u8).take(100));
    let back = decode_blink_list(&bytes).ok().unwrap();
    assert!(back.is_initialized);
    assert_eq!(back.blinks.len(), 3);
    for (x, y) in back.blinks.iter().zip(l.blinks.iter()) {
        assert!(same_blink(x, y));
    }
}

#[test]
fn record_round_trip_with_padding() {
    let r = BlinkRecord { blink: blink("", "Buy Coffee"), is_initialized: false };
    let mut bytes = encode_blink_record(&r);
    bytes.extend_from_slice(&[0, 0, 0]);
    let back = decode_blink_record(&bytes).ok().unwrap();
    assert!(!back.is_initialized);
    assert!(same_blink(&back.blink, &r.blink));
}

#[test]
fn decode_rejects_truncated_bytes() {
    let l = BlinkList { blinks: vec![blink("a", "title")], is_initialized: true };
    let bytes = encode_blink_list(&l);
    for cut in 0..bytes.len() {
        assert_eq!(decode_blink_list(&bytes[..cut]).err(), Some(ErrorCode::CorruptStore));
    }
    assert_eq!(decode_blink_record(&[]).err(), Some(ErrorCode::CorruptStore));
}

#[test]
fn decode_rejects_bad_flag_and_long_prefix() {
    assert_eq!(decode_blink_list(&[0, 0, 0, 0, 2]).err(), Some(ErrorCode::CorruptStore));
    assert_eq!(decode_blink_list(&[1, 0, 0, 0, 9, 0, 0, 0, b'a']).err(), Some(ErrorCode::CorruptStore));
    assert_eq!(decode_blink_record(&[2]).err(), Some(ErrorCode::CorruptStore));
}

#[test]
fn decode_rejects_invalid_utf8() {
    let mut bytes: Vec<u8> = vec![1, 0, 0, 0];
    bytes.extend_from_slice(&[1, 0, 0, 0, 0xFF]);
    for _ in 0..6 {
        bytes.extend_from_slice(&[0, 0, 0, 0]);
    }
    bytes.push(1);
    assert_eq!(decode_blink_list(&bytes).err(), Some(ErrorCode::CorruptStore));
    bytes[8] = b'z';
    let back = decode_blink_list(&bytes).ok().unwrap();
    assert_eq!(back.blinks[0].id, "z");
}

#[test]
fn decode_reads_multibyte_text() {
    let mut bytes: Vec<u8> = vec![1];
    bytes.extend_from_slice(&[0, 0, 0, 0]);
    bytes.extend_from_slice(&[3, 0, 0, 0, 0xE2, 0x82, 0xAC]);
    for _ in 0..5 {
        bytes.extend_from_slice(&[0, 0, 0, 0]);
    }
    let back = decode_blink_record(&bytes).ok().unwrap();
    assert_eq!(back.blink.title, "€");
    assert!(back.is_initialized);
}

#[test]
fn fits_and_bounded_encoding() {
    let l = BlinkList { blinks: vec![blink("a", "t")], is_initialized: true };
    let n = encode_blink_list(&l).len();
    assert_eq!(n, 5 + 28 + 7);
    assert!(list_fits_in(&l, n));
    assert!(!list_fits_in(&l, n - 1));
    assert_eq!(encode_list_within(&l, n), Some(encode_blink_list(&l)));
    assert_eq!(encode_list_within(&l, n - 1), None);
    let r = BlinkRecord { blink: blink("", "t"), is_initialized: true };
    let m = encode_blink_record(&r).len();
    assert_eq!(m, 1 + 28 + 6);
    assert!(record_fits_in(&r, m));
    assert!(!record_fits_in(&r, m - 1));
    assert_eq!(encode_record_within(&r, m - 1), None);
    assert_eq!(encode_record_within(&r, m), Some(encode_blink_record(&r)));
}

#[test]
fn duplicate_keeps_every_field() {
    let l = BlinkList { blinks: vec![blink("a", "x"), blink("b", "y")], is_initialized: true };
    let d = l.duplicate();
    assert_eq!(encode_blink_list(&d), encode_blink_list(&l));
    let b = blink("q", "w");
    assert!(same_blink(&b.duplicate(), &b));
    assert_eq!(b.field(1), "w");
    assert_eq!(b.field(6), "k");
}
