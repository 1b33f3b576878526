use hitomezashi::RectSettings;
use hitomezashi::decode_settings;
use hitomezashi::encode_settings;

#[test]
fn test_settings_json_serialization() {
    let settings = RectSettings {
        spacing_tenths: 375,
        horz_seed: 255,
        vert_seed: 0,
        horz_selectors: vec![true, false, true, true, false],
        vert_selectors: vec![false, true, false, false, true],
    };

    let json_bytes = encode_settings(&settings);
    let json_string = String::from_utf8(json_bytes).expect("Settings JSON should be UTF-8");
    let parsed: serde_json::Value =
        serde_json::from_str(&json_string).expect("Should be able to parse back");

    assert_eq!(parsed["spacing"], 37.5);
    assert_eq!(parsed["horz_seed"], 255);
    assert_eq!(parsed["vert_seed"], 0);
    let expected_horz: serde_json::Value =
        serde_json::from_str("[true,false,true,true,false]").unwrap();
    let expected_vert: serde_json::Value =
        serde_json::from_str("[false,true,false,false,true]").unwrap();
    assert_eq!(parsed["horz_selectors"], expected_horz);
    assert_eq!(parsed["vert_selectors"], expected_vert);
}

#[test]
fn test_encode_exact_bytes() {
    let settings = RectSettings {
        spacing_tenths: 250,
        horz_seed: 42,
        vert_seed: 84,
        horz_selectors: vec![true, false, true, false, true],
        vert_selectors: vec![false, true, false, true, false],
    };
    let json = String::from_utf8(encode_settings(&settings)).unwrap();
    assert_eq!(
        json,
        "{\"horz_seed\":42,\"horz_selectors\":[true,false,true,false,true],\
         \"spacing\":25.0,\"vert_seed\":84,\"vert_selectors\":[false,true,false,true,false]}"
    );
}

#[test]
fn test_settings_round_trip() {
    let settings = RectSettings {
        spacing_tenths: 101,
        horz_seed: 7,
        vert_seed: 255,
        horz_selectors: vec![true],
        vert_selectors: vec![false, false, true],
    };
    let encoded = encode_settings(&settings);
    let back = decode_settings(&encoded).expect("canonical encoding should decode");
    assert_eq!(back.spacing_tenths, 101);
    assert_eq!(back.horz_seed, 7);
    assert_eq!(back.vert_seed, 255);
    assert_eq!(back.horz_selectors, vec![true]);
    assert_eq!(back.vert_selectors, vec![false, false, true]);
}

#[test]
fn test_decode_rejects_garbage() {
    assert!(decode_settings(&b"nonsense".to_vec()).is_none());
    assert!(decode_settings(&Vec::new()).is_none());
}

#[test]
fn test_decode_rejects_zero_spacing() {
    let text = "{\"horz_seed\":1,\"horz_selectors\":[true],\"spacing\":0.0,\
                \"vert_seed\":1,\"vert_selectors\":[true]}";
    assert!(decode_settings(&text.as_bytes().to_vec()).is_none());
}

#[test]
fn test_decode_rejects_oversized_seed() {
    let text = "{\"horz_seed\":256,\"horz_selectors\":[true],\"spacing\":1.0,\
                \"vert_seed\":1,\"vert_selectors\":[true]}";
    assert!(decode_settings(&text.as_bytes().to_vec()).is_none());
}

#[test]
fn test_decode_rejects_trailing_bytes() {
    let settings = RectSettings {
        spacing_tenths: 10,
        horz_seed: 1,
        vert_seed: 2,
        horz_selectors: vec![true],
        vert_selectors: vec![false],
    };
    let mut encoded = encode_settings(&settings);
    encoded.push(b' ');
    assert!(decode_settings(&encoded).is_none());
}
