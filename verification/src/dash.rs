//! Dash stepping: splitting a line of a given length into alternating
//! drawn and gap spans of a fixed dash length, the last span clipped to
//! the end of the line.

use vstd::prelude::*;

verus! {

/// One step of a dashed line: the half-open range of offsets `[lo, hi)`
/// along the line, and whether that stretch is drawn or left as a gap.
pub struct DashSpan {
    pub lo: u32,
    pub hi: u32,
    pub drawn: bool,
}

/// Whether the offset `off` along a dashed line falls in a drawn stretch,
/// for dash length `d` and a first span drawn iff `start_drawn`.
pub open spec fn offset_drawn(off: int, d: int, start_drawn: bool) -> bool
    recommends
        d > 0,
{
    ((off / d) % 2 == 0) == start_drawn
}

/// The expected `k`-th span of a dashed line of length `len`, dash length
/// `d`, first span drawn iff `start_drawn`: it starts at `k * d`, runs one
/// dash length or up to the end of the line, whichever comes first, and is
/// drawn on even `k` exactly when `start_drawn`.
pub open spec fn span_ok(s: DashSpan, len: int, d: int, start_drawn: bool, k: int) -> bool {
    &&& s.lo == k * d
    &&& s.hi == if (k + 1) * d <= len {
        (k + 1) * d
    } else {
        len
    }
    &&& s.drawn == if k % 2 == 0 {
        start_drawn
    } else {
        !start_drawn
    }
}

/// The whole span sequence of a dashed line of length `len`: every span has
/// its expected place and flag, every span starts strictly inside the line,
/// and the spans together reach the end of the line.
pub open spec fn spans_ok(s: Seq<DashSpan>, len: int, d: int, start_drawn: bool) -> bool {
    &&& forall|k: int| 0 <= k < s.len() ==> span_ok(#[trigger] s[k], len, d, start_drawn, k)
    &&& forall|k: int| 0 <= k < s.len() ==> #[trigger] (k * d) < len
    &&& len <= s.len() * d
}

/// Split a line of length `len` into alternating spans of length `d`, the
/// first drawn iff `start_drawn`, the last clipped at `len`. A zero-length
/// line yields no spans.
pub fn dash_spans(len: u32, d: u32, start_drawn: bool) -> (r: Vec<DashSpan>)
    requires
        d > 0,
    ensures
        spans_ok(r@, len as int, d as int, start_drawn),
{
    let mut spans: Vec<DashSpan> = Vec::new();
    let mut pos: u32 = 0;
    let mut drawn = start_drawn;
    proof {
        assert(spans@.len() * d == 0) by (nonlinear_arith)
            requires
                spans@.len() == 0,
        ;
    }
    while pos < len
        invariant
            d > 0,
            pos <= len,
            pos == if spans@.len() * d <= len as int {
                spans@.len() * d
            } else {
                len as int
            },
            drawn == if spans@.len() % 2 == 0 {
                start_drawn
            } else {
                !start_drawn
            },
            forall|k: int|
                0 <= k < spans@.len() ==> span_ok(
                    #[trigger] spans@[k],
                    len as int,
                    d as int,
                    start_drawn,
                    k,
                ),
            forall|k: int| 0 <= k < spans@.len() ==> #[trigger] (k * (d as int)) < len as int,
        decreases len - pos,
    {
        let ghost c = spans@.len() as int;
        proof {
            assert(c * d <= len) by {
                if c * d > len {
                    assert(pos == len);
                }
            }
            assert((c + 1) * d == c * d + d) by (nonlinear_arith);
        }
        let hi = if d <= len - pos {
            pos + d
        } else {
            len
        };
        spans.push(DashSpan { lo: pos, hi, drawn });
        pos = hi;
        drawn = !drawn;
    }
    proof {
        assert(len <= spans@.len() * d) by {
            if spans@.len() * d <= len as int {
                assert(pos == spans@.len() * d);
            }
        }
    }
    spans
}

/// The total length covered by a sequence of spans.
pub open spec fn spans_total(s: Seq<DashSpan>) -> int
    decreases s.len(),
{
    if s.len() == 0 {
        0
    } else {
        spans_total(s.drop_last()) + (s.last().hi - s.last().lo)
    }
}

/// Law: the spans of a dashed line tile the line exactly. Their lengths sum
/// to the line's length (so the union of the emitted segments is within one
/// dash length of it), consecutive spans touch, the first span starts at the
/// start of the line with the given flag, the last ends at its end, and the
/// drawn flag strictly alternates.
pub proof fn lemma_dash_spans_tile(s: Seq<DashSpan>, len: int, d: int, start_drawn: bool)
    requires
        d > 0,
        0 <= len,
        spans_ok(s, len, d, start_drawn),
    ensures
        spans_total(s) == len,
        forall|k: int| 0 <= k < s.len() - 1 ==> (#[trigger] s[k + 1]).lo == s[k].hi,
        forall|k: int| 0 <= k < s.len() - 1 ==> (#[trigger] s[k + 1]).drawn != s[k].drawn,
        s.len() > 0 ==> s[0].lo == 0 && s[0].drawn == start_drawn && s.last().hi == len,
    decreases s.len(),
{
    if s.len() == 0 {
        assert(s.len() * d == 0);
    } else {
        let c = s.len() - 1;
        assert(c * d < len);
        assert(forall|k: int| 0 <= k < c ==> span_ok(#[trigger] s.drop_last()[k], c * d, d, start_drawn, k))
            by {
            assert forall|k: int| 0 <= k < c implies span_ok(
                #[trigger] s.drop_last()[k],
                c * d,
                d,
                start_drawn,
                k,
            ) by {
                assert(s.drop_last()[k] == s[k]);
                assert((k + 1) * d <= c * d) by (nonlinear_arith)
                    requires
                        0 <= k < c,
                        d > 0,
                ;
            }
        }
        assert(forall|k: int| 0 <= k < c ==> #[trigger] (k * d) < c * d) by {
            assert forall|k: int| 0 <= k < c implies #[trigger] (k * d) < c * d by {
                assert(k * d < c * d) by (nonlinear_arith)
                    requires
                        0 <= k < c,
                        d > 0,
                ;
            }
        }
        lemma_dash_spans_tile(s.drop_last(), c * d, d, start_drawn);
        assert((c + 1) * d == c * d + d) by (nonlinear_arith);
        assert(span_ok(s[c], len, d, start_drawn, c));
        assert(s.last() == s[c]);
        assert(spans_total(s) == spans_total(s.drop_last()) + (s.last().hi - s.last().lo));
        assert(forall|k: int| 0 <= k < s.len() - 1 ==> (#[trigger] s[k + 1]).lo == s[k].hi) by {
            assert forall|k: int| 0 <= k < s.len() - 1 implies (#[trigger] s[k + 1]).lo == s[k].hi
                by {
                assert(span_ok(s[k], len, d, start_drawn, k));
                assert(span_ok(s[k + 1], len, d, start_drawn, k + 1));
                assert((k + 1) * d < len);
            }
        }
    }
}

} // verus!
