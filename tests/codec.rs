use std::io::{Read, Write};

use twrp_evacuate::codec::{compress_archive, decode_volume, DecodeError};

fn deflate(data: &[u8]) -> Vec<u8> {
    let mut e = flate2::write::DeflateEncoder::new(Vec::new(), flate2::Compression::default());
    e.write_all(data).unwrap();
    e.finish().unwrap()
}

#[test]
fn volume_payload_decodes_after_the_prefix() {
    let payload = b"tar bytes of one volume".to_vec();
    let mut raw = vec![0xffu8; 10];
    raw.extend(deflate(&payload));
    assert_eq!(decode_volume(&raw), Ok(payload));
}

#[test]
fn short_or_corrupt_volumes_fail() {
    assert_eq!(decode_volume(&vec![1, 2, 3]), Err(DecodeError::Truncated));
    let mut raw = vec![0u8; 10];
    raw.extend([0xffu8, 0xff, 0xff, 0xff]);
    assert_eq!(decode_volume(&raw), Err(DecodeError::Corrupt));
}

#[test]
fn archives_compress_to_gzip() {
    let tar = b"some archive bytes, some archive bytes".to_vec();
    let gz = compress_archive(&tar);
    assert_eq!(&gz[..2], &[0x1f, 0x8b]);
    let mut back = Vec::new();
    flate2::read::GzDecoder::new(&gz[..]).read_to_end(&mut back).unwrap();
    assert_eq!(back, tar);
}
