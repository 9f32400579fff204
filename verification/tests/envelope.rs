use binformat::envelope::{apply_cipher, frame, save_payload};
use binformat::{decode_to_raw, encode_from_raw, SaveError};

#[test]
fn opens_a_known_envelope() {
    assert_eq!(decode_to_raw("$00seJwrLi0GAAK5AVw=$e").unwrap(), vec![7, 29, 22]);
}

#[test]
fn makes_a_known_envelope() {
    assert_eq!(encode_from_raw(&[7, 29, 22], 0).unwrap(), "$00seJwrLi0GAAK5AVw=$e");
}

#[test]
fn envelope_round_trip_gives_the_bytes_back() {
    let data: Vec<u8> = (0..=255u8).chain(0..100u8).collect();
    let text = encode_from_raw(&data, 42).unwrap();
    assert!(text.starts_with("$42s"));
    assert!(text.ends_with("$e"));
    assert_eq!(decode_to_raw(&text).unwrap(), data);
}

#[test]
fn text_without_a_frame_is_no_envelope() {
    assert!(matches!(decode_to_raw(""), Err(SaveError::InvalidSaveString)));
    assert!(matches!(decode_to_raw("00seJwrLi0GAAK5AVw=$e"), Err(SaveError::InvalidSaveString)));
    assert!(matches!(decode_to_raw("$0seJwrLi0GAAK5AVw=$e"), Err(SaveError::InvalidSaveString)));
    assert!(matches!(decode_to_raw("$00xeJwrLi0GAAK5AVw=$e"), Err(SaveError::InvalidSaveString)));
    assert!(matches!(decode_to_raw("$00seJwrLi0GAAK5AVw=$"), Err(SaveError::InvalidSaveString)));
    assert!(matches!(decode_to_raw("$00seJwr\nLi0GAAK5AVw=$e"), Err(SaveError::InvalidSaveString)));
    assert!(matches!(decode_to_raw("$00seJwrLi0GAAK5AVw=$e\n"), Err(SaveError::InvalidSaveString)));
}

#[test]
fn payload_that_is_not_base64_is_refused() {
    assert!(matches!(decode_to_raw("$00s!!!!$e"), Err(SaveError::InvalidBase64)));
}

#[test]
fn payload_that_is_not_a_zlib_stream_is_refused() {
    assert!(matches!(decode_to_raw("$00sAAAA$e"), Err(SaveError::CompressError(_))));
}

#[test]
fn payload_is_what_stands_between_the_frame() {
    assert_eq!(save_payload("$12sabc$e"), Some("abc".to_string()));
    assert_eq!(save_payload("$12s$e"), Some(String::new()));
    assert_eq!(save_payload("$12s$"), None);
    assert_eq!(save_payload("$1as$e"), None);
}

#[test]
fn frame_pads_the_version_to_two_digits() {
    assert_eq!(frame(0, "x"), "$00sx$e");
    assert_eq!(frame(7, "x"), "$07sx$e");
    assert_eq!(frame(10, "x"), "$10sx$e");
    assert_eq!(frame(99, "x"), "$99sx$e");
    assert_eq!(frame(30, ""), "$30s$e");
}

#[test]
fn every_two_digit_version_gives_an_envelope_that_opens() {
    for version in 0..100u16 {
        let text = encode_from_raw(&[1, 2, 3], version).unwrap();
        assert_eq!(text.len(), encode_from_raw(&[1, 2, 3], 0).unwrap().len());
        assert_eq!(decode_to_raw(&text).unwrap(), vec![1, 2, 3]);
    }
}

#[test]
fn cipher_adds_the_repeating_key() {
    assert_eq!(apply_cipher(&[0, 0, 0]), b"the".to_vec());
    let zeros = vec![0u8; 16];
    assert_eq!(apply_cipher(&zeros), b"therealmisalieth".to_vec());
    assert_eq!(apply_cipher(&apply_cipher(&[1, 2, 3, 250])), vec![1, 2, 3, 250]);
    assert_eq!(apply_cipher(&[]), Vec::<u8>::new());
}
