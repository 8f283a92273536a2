use officium_rs::embed::{decompress, horas_postcard, missa_postcard, split_corpus_blob, try_decompress};

const QUICK_FOX_BR: [u8; 58] = [
    0x5B, 0xFF, 0xAF, 0x02, 0xC0, 0x22, 0x79, 0x5C, 0xFB, 0x5A, 0x8C, 0x42, 0x3B, 0xF4, 0x25,
    0x55, 0x19, 0x5A, 0x92, 0x99, 0xB1, 0x35, 0xC8, 0x19, 0x9E, 0x9E, 0x0A, 0x7B, 0x4B, 0x90,
    0xB9, 0x3C, 0x98, 0xC8, 0x09, 0x40, 0xF3, 0xE6, 0xD9, 0x4D, 0xE4, 0x6D, 0x65, 0x1B, 0x27,
    0x87, 0x13, 0x5F, 0xA6, 0xE9, 0x30, 0x96, 0x7B, 0x3C, 0x15, 0xD8, 0x53, 0x1C,
];

#[test]
fn brotli_stream_decompresses() {
    let out = decompress(&QUICK_FOX_BR);
    assert_eq!(out.len(), 176128);
    let fox = b"The quick brown fox jumps over the lazy dog";
    for (i, b) in out.iter().enumerate() {
        assert_eq!(*b, fox[i % fox.len()]);
    }
    assert_eq!(decompress(&[0x06]), Vec::<u8>::new());
}

#[test]
fn malformed_brotli_is_refused() {
    assert!(try_decompress(&[0xff, 0xff, 0xff, 0xff]).is_none());
    assert_eq!(try_decompress(&[0x06]), Some(Vec::new()));
}

#[test]
fn corpus_blob_header_splits_the_two_postcards() {
    let blob = [3u8, 0, 0, 0, 2, 0, 0, 0, b'h', b'o', b'r', b'm', b'i', b'x'];
    assert_eq!(horas_postcard(&blob), b"hor");
    assert_eq!(missa_postcard(&blob), b"mi");
    assert_eq!(split_corpus_blob(&blob), Some((b"hor".to_vec(), b"mi".to_vec())));
    assert_eq!(split_corpus_blob(&blob[..9]), None);
    assert_eq!(split_corpus_blob(&[1, 2, 3]), None);
    let big = [0u8, 1, 0, 0, 0, 0, 0, 0, 9];
    assert_eq!(split_corpus_blob(&big), None);
}
