use base64::Base64Decoder;
use base64::Base64Encoder;
use rand::RngExt;

fn encode_to_string(s: &[u8]) -> String {
    let mut encoder = Base64Encoder::new(s);
    let mut out: Vec<u8> = Vec::new();
    while let Some(b) = encoder.next() {
        out.push(b);
    }
    String::from_utf8(out).unwrap()
}

fn decode_to_vec(s: &str) -> Vec<u8> {
    let mut decoder = Base64Decoder::new(s.as_bytes());
    let mut out: Vec<u8> = Vec::new();
    while let Some(b) = decoder.next() {
        out.push(b);
    }
    out
}

#[test]
fn test_base64_random() {
    let mut rng = rand::rng();
    for _ in 0..1000 {
        let times: usize = rng.random_range(1..100);
        let mut v = vec![0u8; times];
        rng.fill(&mut v[..]);
        let encoded = encode_to_string(v.as_slice());
        let decoded = decode_to_vec(encoded.as_str());
        assert_eq!(decoded, v);
    }
}

#[test]
fn test_round_trip_random_status_ok() {
    let mut rng = rand::rng();
    for _ in 0..1000 {
        let times: usize = rng.random_range(1..100);
        let mut v = vec![0u8; times];
        rng.fill(&mut v[..]);
        let encoded = encode_to_string(v.as_slice());
        let mut decoder = Base64Decoder::new(encoded.as_bytes());
        let mut out: Vec<u8> = Vec::new();
        while let Some(b) = decoder.next() {
            out.push(b);
        }
        assert_eq!(out, v);
        assert!(decoder.status().is_ok());
    }
}
