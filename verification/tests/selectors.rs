use hitomezashi::RectSettings;
use hitomezashi::generate;

#[test]
fn test_generate_deterministic() {
    for seed in [0u8, 1, 42, 200, 255] {
        for len in [1usize, 5, 10, 64] {
            let a = generate(seed, len);
            let b = generate(seed, len);
            assert_eq!(a.len(), len);
            assert_eq!(a, b);
        }
    }
}

#[test]
fn test_generate_seed42_len5_stable() {
    let a = generate(42, 5);
    let b = generate(42, 5);
    assert_eq!(a.len(), 5);
    assert_eq!(b.len(), 5);
    assert_eq!(a, b);
}

#[test]
fn test_generate_empty() {
    let a = generate(7, 0);
    assert!(a.is_empty());
}

#[test]
fn test_generate_prefix_consistent() {
    let long = generate(42, 10);
    let short = generate(42, 5);
    assert_eq!(&long[..5], &short[..]);
}

#[test]
fn test_apply_controls_regenerates_from_seeds() {
    let mut settings = RectSettings::initial();
    settings.apply_controls(120, 42, 84);
    assert_eq!(settings.spacing_tenths, 120);
    assert_eq!(settings.horz_seed, 42);
    assert_eq!(settings.vert_seed, 84);
    assert_eq!(settings.horz_selectors, generate(42, 10));
    assert_eq!(settings.vert_selectors, generate(84, 10));
}
