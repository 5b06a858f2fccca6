use base64::engine::general_purpose::{STANDARD, URL_SAFE_NO_PAD};
use base64::Engine;
use rcli::{process_decode, process_encode, Base64Format, Error};

fn sample_inputs() -> Vec<Vec<u8>> {
    vec![
        Vec::new(),
        b"f".to_vec(),
        b"fo".to_vec(),
        b"foo".to_vec(),
        b"foob".to_vec(),
        b"fooba".to_vec(),
        b"foobar".to_vec(),
        b"hello world".to_vec(),
        vec![0u8, 255, 254, 1, 2, 128, 127, 10, 13, 61],
        (0..=255u8).collect(),
    ]
}

#[test]
fn encode_matches_reference_implementation() {
    for input in sample_inputs() {
        assert_eq!(
            process_encode(&input, Base64Format::UrlSafe),
            URL_SAFE_NO_PAD.encode(&input),
            "url-safe encoding of {:?}",
            input
        );
        assert_eq!(
            process_encode(&input, Base64Format::Standard),
            STANDARD.encode(&input),
            "standard encoding of {:?}",
            input
        );
    }
}

#[test]
fn decode_is_the_exact_inverse_of_encode() {
    for input in sample_inputs() {
        for format in [Base64Format::Standard, Base64Format::UrlSafe] {
            let encoded = process_encode(&input, format);
            let decoded = process_decode(&encoded.into_bytes(), format).unwrap();
            assert_eq!(decoded, input);
        }
    }
}

#[test]
fn decode_trims_surrounding_whitespace() {
    let decoded = process_decode(&b"  aGVsbG8gd29ybGQ=\n".to_vec(), Base64Format::Standard);
    assert_eq!(decoded.unwrap(), b"hello world".to_vec());
    let decoded = process_decode(&b"\taGVsbG8gd29ybGQ \r\n".to_vec(), Base64Format::UrlSafe);
    assert_eq!(decoded.unwrap(), b"hello world".to_vec());
}

#[test]
fn decode_rejects_what_encode_never_produces() {
    for bad in [
        &b"A"[..],              // a lone digit encodes nothing
        &b"!!!!"[..],           // bytes outside the alphabet
        &b"AB=A"[..],           // padding in the middle
        &b"aGVsbG8gd29ybGQ"[..] // missing padding for the standard alphabet
    ] {
        assert_eq!(
            process_decode(&bad.to_vec(), Base64Format::Standard),
            Err(Error::Decode),
            "standard decode of {:?}",
            String::from_utf8_lossy(bad)
        );
    }
    // the url-safe alphabet carries no padding at all
    assert_eq!(
        process_decode(&b"aGVsbG8gd29ybGQ=".to_vec(), Base64Format::UrlSafe),
        Err(Error::Decode)
    );
    // a full final group decodes; one with nonzero trailing bits does not
    assert_eq!(
        process_decode(&b"aGVsbG94".to_vec(), Base64Format::UrlSafe).unwrap(),
        b"hellox".to_vec()
    );
    assert_eq!(
        process_decode(&b"aGVsbG9".to_vec(), Base64Format::UrlSafe),
        Err(Error::Decode)
    );
}

#[test]
fn decode_agrees_with_reference_on_alphabet_choice() {
    // `-` and `_` belong to the url-safe alphabet only, `+` and `/` to the standard one
    let bytes = vec![251u8, 239];
    let url = process_encode(&bytes, Base64Format::UrlSafe);
    let std = process_encode(&bytes, Base64Format::Standard);
    assert_eq!(url, "--8");
    assert_eq!(std, "++8=");
    assert_eq!(process_decode(&url.clone().into_bytes(), Base64Format::Standard), Err(Error::Decode));
    assert_eq!(process_decode(&std.clone().into_bytes(), Base64Format::UrlSafe), Err(Error::Decode));
}
