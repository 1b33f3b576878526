use hitomezashi::MetaError;
use hitomezashi::RectSettings;
use hitomezashi::attach_metadata;
use hitomezashi::export_png;
use hitomezashi::read_text_records;

fn test_settings() -> RectSettings {
    RectSettings {
        spacing_tenths: 250,
        horz_seed: 42,
        vert_seed: 84,
        horz_selectors: vec![true, false, true, false, true],
        vert_selectors: vec![false, true, false, true, false],
    }
}

fn make_test_png(width: u32, height: u32) -> (Vec<u8>, Vec<u8>) {
    let mut image_data: Vec<u8> = Vec::with_capacity((width * height * 4) as usize);
    for y in 0..height {
        for x in 0..width {
            let r = if (x / 10) % 2 == 0 { 255 } else { 128 };
            let g = if (y / 10) % 2 == 0 { 255 } else { 128 };
            image_data.push(r);
            image_data.push(g);
            image_data.push(200);
            image_data.push(255);
        }
    }
    let mut out: Vec<u8> = Vec::new();
    {
        let mut encoder = png::Encoder::new(&mut out, width, height);
        encoder.set_color(png::ColorType::Rgba);
        encoder.set_depth(png::BitDepth::Eight);
        let mut writer = encoder.write_header().expect("Failed to create test PNG");
        writer
            .write_image_data(&image_data)
            .expect("Failed to create test PNG");
        writer.finish().expect("Failed to create test PNG");
    }
    (out, image_data)
}

fn decode_rgba(data: &[u8]) -> (u32, u32, Vec<u8>) {
    let mut decoder = png::Decoder::new(data);
    decoder.set_transformations(png::Transformations::IDENTITY);
    let mut reader = decoder.read_info().expect("decode failed");
    let mut buf = vec![0u8; reader.output_buffer_size()];
    let info = reader.next_frame(&mut buf).expect("decode failed");
    buf.truncate(info.buffer_size());
    (info.width, info.height, buf)
}

fn find_record<'a>(records: &'a [(Vec<u8>, Vec<u8>)], keyword: &str) -> Option<&'a Vec<u8>> {
    records
        .iter()
        .find(|(k, _)| k.as_slice() == keyword.as_bytes())
        .map(|(_, t)| t)
}

#[test]
fn test_metadata_writing_and_reading() {
    let (png_bytes, _) = make_test_png(100, 100);
    let settings = test_settings();

    let with_meta = attach_metadata(&png_bytes, &settings).expect("Failed to add metadata");
    let records = read_text_records(&with_meta);
    assert!(!records.is_empty(), "No text chunks found");

    let description = find_record(&records, "Description").expect("Description chunk not found");
    assert_eq!(description.as_slice(), b"Hitomezashi Pattern");

    let software = find_record(&records, "Software").expect("Software chunk not found");
    assert_eq!(software.as_slice(), b"Hitomezashi Pattern Generator");

    let settings_text = find_record(&records, "Settings").expect("Settings chunk not found");
    let parsed: serde_json::Value =
        serde_json::from_str(&String::from_utf8(settings_text.clone()).unwrap())
            .expect("Settings should be valid JSON");
    assert_eq!(parsed["spacing"], 25.0);
    assert_eq!(parsed["horz_seed"], 42);
    assert_eq!(parsed["vert_seed"], 84);
    let expected_horz: serde_json::Value =
        serde_json::from_str("[true,false,true,false,true]").unwrap();
    let expected_vert: serde_json::Value =
        serde_json::from_str("[false,true,false,true,false]").unwrap();
    assert_eq!(parsed["horz_selectors"], expected_horz);
    assert_eq!(parsed["vert_selectors"], expected_vert);
}

#[test]
fn test_metadata_with_different_settings() {
    let (png_bytes, _) = make_test_png(200, 150);
    let settings = RectSettings {
        spacing_tenths: 500,
        horz_seed: 123,
        vert_seed: 200,
        horz_selectors: vec![true, true, false, false, true, false],
        vert_selectors: vec![false, false, true, true, false, true],
    };

    let with_meta = attach_metadata(&png_bytes, &settings).expect("Failed to add metadata");
    let records = read_text_records(&with_meta);
    let settings_text = find_record(&records, "Settings").expect("Settings chunk not found");
    let parsed: serde_json::Value =
        serde_json::from_str(&String::from_utf8(settings_text.clone()).unwrap())
            .expect("Settings should be valid JSON");
    assert_eq!(parsed["spacing"], 50.0);
    assert_eq!(parsed["horz_seed"], 123);
    assert_eq!(parsed["vert_seed"], 200);
    let expected_horz: serde_json::Value =
        serde_json::from_str("[true,true,false,false,true,false]").unwrap();
    let expected_vert: serde_json::Value =
        serde_json::from_str("[false,false,true,true,false,true]").unwrap();
    assert_eq!(parsed["horz_selectors"], expected_horz);
    assert_eq!(parsed["vert_selectors"], expected_vert);
}

#[test]
fn test_attach_refuses_empty_input() {
    let settings = test_settings();
    let result = attach_metadata(&Vec::new(), &settings);
    assert!(result.is_err(), "Should fail for empty input");
    assert_eq!(result.unwrap_err(), MetaError::EmptyInput);
}

#[test]
fn test_attach_refuses_malformed_input() {
    let settings = test_settings();
    let result = attach_metadata(&b"not a png at all".to_vec(), &settings);
    assert!(result.is_err(), "Should fail for malformed input");
    assert_eq!(result.unwrap_err(), MetaError::Decode);
}

#[test]
fn test_export_refuses_zero_width() {
    let settings = test_settings();
    let result = export_png(0, 10, &settings);
    assert_eq!(result.unwrap_err(), MetaError::Encode);
}

#[test]
fn test_attach_preserves_pixels_and_grows() {
    let (png_bytes, original_pixels) = make_test_png(50, 50);
    let settings = test_settings();

    let with_meta = attach_metadata(&png_bytes, &settings).expect("Failed to add metadata");
    assert!(
        with_meta.len() > png_bytes.len(),
        "File should be larger after adding metadata"
    );

    let (w, h, pixels) = decode_rgba(&with_meta);
    assert_eq!((w, h), (50, 50));
    assert_eq!(pixels, original_pixels);
}

#[test]
fn test_export_degenerate_white_pattern() {
    let settings = RectSettings {
        spacing_tenths: 500,
        horz_seed: 0,
        vert_seed: 0,
        horz_selectors: vec![false; 5],
        vert_selectors: vec![false; 5],
    };
    let bytes = export_png(50, 50, &settings).expect("export failed");
    assert_eq!(&bytes[..8], &[137, 80, 78, 71, 13, 10, 26, 10]);

    let (w, h, pixels) = decode_rgba(&bytes);
    assert_eq!((w, h), (50, 50));
    assert!(pixels.iter().all(|&b| b == 255));

    let records = read_text_records(&bytes);
    let settings_text = find_record(&records, "Settings").expect("Settings chunk not found");
    let parsed: serde_json::Value =
        serde_json::from_str(&String::from_utf8(settings_text.clone()).unwrap())
            .expect("Settings should be valid JSON");
    assert!(parsed.get("spacing").is_some());
    assert!(parsed.get("horz_seed").is_some());
    assert!(parsed.get("vert_seed").is_some());
}

#[test]
fn test_export_carries_pattern_pixels() {
    let settings = RectSettings {
        spacing_tenths: 100,
        horz_seed: 0,
        vert_seed: 0,
        horz_selectors: vec![true],
        vert_selectors: vec![false],
    };
    let bytes = export_png(30, 30, &settings).expect("export failed");
    let (w, h, pixels) = decode_rgba(&bytes);
    assert_eq!((w, h), (30, 30));
    // top-left starts a drawn dash of the first horizontal sweep line
    assert_eq!(&pixels[0..4], &[0, 0, 0, 255]);
    // a pixel off every sweep line stays white
    let i = ((5 * 30 + 5) * 4) as usize;
    assert_eq!(&pixels[i..i + 4], &[255, 255, 255, 255]);
}

#[test]
fn test_attach_twice_replaces_records() {
    let (png_bytes, original_pixels) = make_test_png(40, 40);
    let settings = test_settings();

    let once = attach_metadata(&png_bytes, &settings).expect("first attach failed");
    let twice = attach_metadata(&once, &settings).expect("second attach failed");

    let (w, h, pixels) = decode_rgba(&twice);
    assert_eq!((w, h), (40, 40));
    assert_eq!(pixels, original_pixels);

    // the records are replaced, not accumulated: exactly one of each
    let records = read_text_records(&twice);
    assert_eq!(records.len(), 3);
    assert_eq!(read_text_records(&once), records);
}

#[test]
fn test_recover_from_export() {
    let settings = test_settings();
    let bytes = export_png(40, 40, &settings).expect("export failed");
    let back = hitomezashi::recover_settings(&bytes).expect("settings should be recoverable");
    assert_eq!(back.spacing_tenths, settings.spacing_tenths);
    assert_eq!(back.horz_seed, settings.horz_seed);
    assert_eq!(back.vert_seed, settings.vert_seed);
    assert_eq!(back.horz_selectors, settings.horz_selectors);
    assert_eq!(back.vert_selectors, settings.vert_selectors);
}

#[test]
fn test_recover_from_attached() {
    let (png_bytes, _) = make_test_png(30, 30);
    let settings = test_settings();
    let with_meta = attach_metadata(&png_bytes, &settings).expect("Failed to add metadata");
    let back = hitomezashi::recover_settings(&with_meta).expect("settings should be recoverable");
    assert_eq!(back.spacing_tenths, 250);
    assert_eq!(back.horz_selectors, vec![true, false, true, false, true]);
}

#[test]
fn test_recover_from_plain_image_is_none() {
    let (png_bytes, _) = make_test_png(20, 20);
    assert!(hitomezashi::recover_settings(&png_bytes).is_none());
}

#[test]
fn test_export_refuses_oversized_width() {
    // wider than a decoder's allocation budget allows reading back
    let settings = test_settings();
    let result = export_png(0x40_0000, 1, &settings);
    assert_eq!(result.unwrap_err(), MetaError::Encode);
}
