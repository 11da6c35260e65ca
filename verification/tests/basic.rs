use base64::Base64Decoder;
use base64::Base64Encoder;

fn encode_to_string(s: &[u8]) -> String {
    let mut encoder = Base64Encoder::new(s);
    let mut out: Vec<u8> = Vec::new();
    while let Some(b) = encoder.next() {
        out.push(b);
    }
    String::from_utf8(out).unwrap()
}

fn decode_to_vec(s: &str) -> Vec<u8> {
    let mut decoder = Base64Decoder::new(s.as_bytes());
    let mut out: Vec<u8> = Vec::new();
    while let Some(b) = decoder.next() {
        out.push(b);
    }
    out
}

fn decode_status_is_err(s: &str) -> bool {
    let mut decoder = Base64Decoder::new(s.as_bytes());
    while let Some(_) = decoder.next() {}
    decoder.status().is_err()
}

#[test]
fn test_encoder_basic() {
    assert_eq!(encode_to_string(b""), "");
    assert_eq!(encode_to_string(b"f"), "Zg==");
    assert_eq!(encode_to_string(b"fo"), "Zm8=");
    assert_eq!(encode_to_string(b"foo"), "Zm9v");
    assert_eq!(encode_to_string(b"foob"), "Zm9vYg==");
    assert_eq!(encode_to_string(b"fooba"), "Zm9vYmE=");
    assert_eq!(encode_to_string(b"foobar"), "Zm9vYmFy");
}

#[test]
fn test_decoder_basic() {
    assert_eq!(decode_to_vec(""), b"");
    assert_eq!(decode_to_vec("Zg=="), b"f");
    assert_eq!(decode_to_vec("Zm8="), b"fo");
    assert_eq!(decode_to_vec("Zm9v"), b"foo");
    assert_eq!(decode_to_vec("Zm9vYg=="), b"foob");
    assert_eq!(decode_to_vec("Zm9vYmE="), b"fooba");
    assert_eq!(decode_to_vec("Zm9vYmFy"), b"foobar");
}

#[test]
fn test_decoder_invalid() {
    assert!(decode_status_is_err("Zm$="));
    assert!(decode_status_is_err("Zg==$"));
    assert!(decode_status_is_err("Z==="));
}

#[test]
fn test_decoder_valid_status_ok() {
    for s in ["", "Zg==", "Zm8=", "Zm9v", "Zm9vYmFy"] {
        let mut decoder = Base64Decoder::new(s.as_bytes());
        while let Some(_) = decoder.next() {}
        assert!(decoder.status().is_ok());
    }
}

#[test]
fn test_decoder_error_kinds() {
    // A byte outside the alphabet, in each position of a chunk.
    assert!(decode_status_is_err("$AAA"));
    assert!(decode_status_is_err("A$AA"));
    assert!(decode_status_is_err("AA$A"));
    assert!(decode_status_is_err("AAA$"));
    // Padding in position 0 or 1.
    assert!(decode_status_is_err("=AAA"));
    assert!(decode_status_is_err("A=AA"));
    assert!(decode_status_is_err("===="));
    // Padding in position 2 while position 3 is a real character.
    assert!(decode_status_is_err("AA=A"));
    // A truncated final chunk.
    assert!(decode_status_is_err("Z"));
    assert!(decode_status_is_err("Zm"));
    assert!(decode_status_is_err("Zm9"));
    assert!(decode_status_is_err("Zm9vYg"));
}

#[test]
fn test_decoder_early_termination() {
    // The first chunk is invalid: no output at all, even though a
    // valid-looking chunk follows, and the status stays an error.
    let mut decoder = Base64Decoder::new(b"Zm$=Zm9v");
    assert_eq!(decoder.next(), None);
    assert_eq!(decoder.next(), None);
    assert_eq!(decoder.next(), None);
    assert!(decoder.status().is_err());

    // A valid chunk, then an invalid one: the valid prefix is delivered,
    // then output ends for good despite further valid-looking input.
    let mut decoder = Base64Decoder::new(b"Zm9vZ===Zm9v");
    assert_eq!(decoder.next(), Some(b'f'));
    assert_eq!(decoder.next(), Some(b'o'));
    assert_eq!(decoder.next(), Some(b'o'));
    assert_eq!(decoder.next(), None);
    assert!(decoder.status().is_err());
    assert_eq!(decoder.next(), None);
    assert_eq!(decoder.next(), None);
    assert!(decoder.status().is_err());
}

#[test]
fn test_decoder_url_safe_alphabet() {
    // The URL-safe substitutes are accepted, even mixed with the standard
    // alphabet in one input.
    assert_eq!(decode_to_vec("+/+/"), vec![251u8, 255, 191]);
    assert_eq!(decode_to_vec("-_-_"), vec![251u8, 255, 191]);
    assert_eq!(decode_to_vec("+_-/"), vec![251u8, 255, 191]);
    assert_eq!(encode_to_string(&[251u8, 255, 191]), "+/+/");
}

#[test]
fn test_encoder_length_and_padding() {
    for n in 0usize..30 {
        let input: Vec<u8> = (0..n).map(|i| (7 * i + 3) as u8).collect();
        let encoded = encode_to_string(&input);
        // Exactly 4 * ceil(n / 3) output characters.
        assert_eq!(encoded.len(), 4 * ((n + 2) / 3));
        // Trailing padding determined by n mod 3, and nowhere else.
        let expected_pad = match n % 3 {
            1 => 2,
            2 => 1,
            _ => 0,
        };
        let pad = encoded.bytes().rev().take_while(|&b| b == b'=').count();
        assert_eq!(pad, expected_pad);
        assert!(!encoded[..encoded.len() - pad].contains('='));
    }
}

#[test]
fn test_encoder_alphabet_closure() {
    let input: Vec<u8> = (0u16..256).map(|i| i as u8).collect();
    let encoded = encode_to_string(&input);
    for b in encoded.bytes() {
        let in_set = b.is_ascii_uppercase() || b.is_ascii_lowercase() || b.is_ascii_digit()
            || b == b'+' || b == b'/' || b == b'=';
        assert!(in_set);
    }
}

#[test]
fn test_round_trip_small() {
    for n in 0usize..12 {
        let input: Vec<u8> = (0..n).map(|i| (31 * i + 5) as u8).collect();
        let encoded = encode_to_string(&input);
        let mut decoder = Base64Decoder::new(encoded.as_bytes());
        let mut out: Vec<u8> = Vec::new();
        while let Some(b) = decoder.next() {
            out.push(b);
        }
        assert_eq!(out, input);
        assert!(decoder.status().is_ok());
    }
}
