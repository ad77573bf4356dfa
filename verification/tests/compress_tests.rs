use std::io::Read;
use wikidump::compress::{compress_line, compress_object, dictionary_from_samples};

fn samples() -> Vec<String> {
    (0..400)
        .map(|i| format!("{{\"type\":\"item\",\"id\":\"Q{}\",\"labels\":{{\"en\":\"entity {}\"}},\"sitelinks\":{{}}}}", i, i * 31 % 97))
        .collect()
}

#[test]
fn compress_line_is_a_gzip_member_of_the_line() {
    let line = b"{\"id\":\"Q42\",\"labels\":{}}";
    let member = compress_line(line).unwrap();
    assert_ne!(member, line.to_vec());
    assert_eq!(&member[..2], &[0x1f, 0x8b]);
    let mut back = Vec::new();
    flate2::read::GzDecoder::new(&member[..]).read_to_end(&mut back).unwrap();
    assert_eq!(back, line.to_vec());
    // The member depends on the data alone.
    assert_eq!(compress_line(line), Some(member));
}

#[test]
fn compress_line_of_nothing() {
    let member = compress_line(b"").unwrap();
    let mut back = Vec::new();
    flate2::read::GzDecoder::new(&member[..]).read_to_end(&mut back).unwrap();
    assert!(back.is_empty());
}

#[test]
fn compress_object_is_a_zstd_frame_with_the_dictionary() {
    let dict = dictionary_from_samples(&samples(), 2000).unwrap();
    assert!(dict.len() <= 2000);
    let line = "{\"type\":\"item\",\"id\":\"Q5\",\"labels\":{\"en\":\"entity 5\"},\"sitelinks\":{}}";
    let frame = compress_object(&dict, line).unwrap();
    assert_ne!(frame, line.as_bytes().to_vec());
    assert_eq!(&frame[..4], &[0x28, 0xb5, 0x2f, 0xfd]);
    let mut decoder = zstd::stream::read::Decoder::with_dictionary(&frame[..], &dict).unwrap();
    let mut back = Vec::new();
    decoder.read_to_end(&mut back).unwrap();
    assert_eq!(back, line.as_bytes().to_vec());
    assert_eq!(compress_object(&dict, line), Some(frame));
}
