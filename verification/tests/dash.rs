use hitomezashi::dash_spans;

#[test]
fn test_dash_spans_even_split() {
    let spans = dash_spans(100, 10, true);
    assert_eq!(spans.len(), 10);
    let mut total: u32 = 0;
    for (k, s) in spans.iter().enumerate() {
        assert_eq!(s.lo, 10 * k as u32);
        assert_eq!(s.hi, 10 * (k as u32 + 1));
        assert_eq!(s.drawn, k % 2 == 0);
        total += s.hi - s.lo;
    }
    assert_eq!(total, 100);
}

#[test]
fn test_dash_spans_clipped_last() {
    let spans = dash_spans(95, 10, false);
    assert_eq!(spans.len(), 10);
    assert_eq!(spans[9].lo, 90);
    assert_eq!(spans[9].hi, 95);
    let mut total: u32 = 0;
    for (k, s) in spans.iter().enumerate() {
        assert_eq!(s.drawn, k % 2 == 1);
        if k > 0 {
            assert_eq!(s.lo, spans[k - 1].hi);
        }
        total += s.hi - s.lo;
    }
    assert_eq!(spans[0].lo, 0);
    assert_eq!(total, 95);
}

#[test]
fn test_dash_spans_alternate_strictly() {
    let spans = dash_spans(47, 7, true);
    for k in 1..spans.len() {
        assert_ne!(spans[k].drawn, spans[k - 1].drawn);
    }
    assert!(spans[0].drawn);
}

#[test]
fn test_dash_spans_degenerate_empty() {
    let spans = dash_spans(0, 10, true);
    assert!(spans.is_empty());
}

#[test]
fn test_dash_spans_single_short() {
    let spans = dash_spans(3, 10, true);
    assert_eq!(spans.len(), 1);
    assert_eq!(spans[0].lo, 0);
    assert_eq!(spans[0].hi, 3);
    assert!(spans[0].drawn);
}
