//! Scanning a chunked image container for simple textual metadata
//! records. The container is an 8-byte signature followed by chunks of the
//! form length (4 bytes, big-endian), type tag (4 bytes), data, checksum
//! (4 bytes). A simple textual chunk (tag `tEXt`) stores `keyword\0text`
//! in its data. The scan stops gracefully at the end of the data and
//! ignores malformed or truncated trailing chunks.

use vstd::prelude::*;

verus! {

/// The big-endian 32-bit value at position `i`.
pub open spec fn be32_at(s: Seq<u8>, i: int) -> int {
    s[i] * 0x100_0000 + s[i + 1] * 0x1_0000 + s[i + 2] * 0x100 + s[i + 3]
}

/// Whether the four bytes at `i` are the simple textual chunk tag `tEXt`.
/// The compressed (`zTXt`) and international (`iTXt`) tags differ in their
/// first or second byte, so they are never taken for the simple kind.
pub open spec fn is_text_tag(s: Seq<u8>, i: int) -> bool {
    s[i] == 116 && s[i + 1] == 69 && s[i + 2] == 88 && s[i + 3] == 116
}

/// The index of the first zero byte of `t`, or `-1` if there is none.
pub open spec fn first_null(t: Seq<u8>) -> int
    decreases t.len(),
{
    if t.len() == 0 {
        -1
    } else if t[0] == 0 {
        0
    } else {
        let r = first_null(t.skip(1));
        if r < 0 {
            -1
        } else {
            r + 1
        }
    }
}

/// The textual records of the chunk stream from position `pos` on: one
/// `(keyword, text)` pair per well-formed simple textual chunk, in stream
/// order. A truncated chunk body, a missing keyword separator or a
/// truncated trailing chunk contributes nothing.
pub open spec fn text_records_from(s: Seq<u8>, pos: int) -> Seq<(Seq<u8>, Seq<u8>)>
    decreases s.len() - pos,
{
    if 0 <= pos && pos + 12 < s.len() {
        let length = be32_at(s, pos);
        let next = pos + 12 + length;
        let rest = if next <= s.len() {
            text_records_from(s, next)
        } else {
            Seq::empty()
        };
        if is_text_tag(s, pos + 4) && pos + 8 + length <= s.len() {
            let body = s.subrange(pos + 8, pos + 8 + length);
            let np = first_null(body);
            if np >= 0 {
                seq![(body.subrange(0, np), body.subrange(np + 1, body.len() as int))] + rest
            } else {
                rest
            }
        } else {
            rest
        }
    } else {
        Seq::empty()
    }
}

/// The records of the whole container: the scan starts after the 8-byte
/// signature.
pub open spec fn text_records_of(s: Seq<u8>) -> Seq<(Seq<u8>, Seq<u8>)> {
    text_records_from(s, 8)
}

/// A zero byte after only non-zero bytes is the first one.
proof fn lemma_first_null_at(t: Seq<u8>, k: int)
    requires
        0 <= k < t.len(),
        t[k] == 0,
        forall|m: int| 0 <= m < k ==> t[m] != 0,
    ensures
        first_null(t) == k,
    decreases k,
{
    if k > 0 {
        assert(forall|m: int| 0 <= m < k - 1 ==> #[trigger] t.skip(1)[m] == t[m + 1]);
        lemma_first_null_at(t.skip(1), k - 1);
    }
}

/// Without a zero byte there is no first one.
proof fn lemma_first_null_none(t: Seq<u8>)
    requires
        forall|m: int| 0 <= m < t.len() ==> t[m] != 0,
    ensures
        first_null(t) == -1,
    decreases t.len(),
{
    if t.len() > 0 {
        assert(forall|m: int| 0 <= m < t.skip(1).len() ==> #[trigger] t.skip(1)[m] != 0) by {
            assert(forall|m: int|
                0 <= m < t.skip(1).len() ==> #[trigger] t.skip(1)[m] == t[m + 1]);
        }
        lemma_first_null_none(t.skip(1));
    }
}

/// Copy the bytes of the range `[a, b)`.
fn copy_range(data: &Vec<u8>, a: usize, b: usize) -> (r: Vec<u8>)
    requires
        a <= b <= data@.len(),
    ensures
        r@ == data@.subrange(a as int, b as int),
{
    let mut out: Vec<u8> = Vec::new();
    let mut k: usize = a;
    while k < b
        invariant
            a <= k <= b <= data@.len(),
            out@ == data@.subrange(a as int, k as int),
        decreases b - k,
    {
        proof {
            assert(data@.subrange(a as int, k + 1) =~= data@.subrange(a as int, k as int).push(
                data@[k as int],
            ));
        }
        out.push(data[k]);
        k = k + 1;
    }
    out
}

/// Scan a container for its simple textual records: one `(keyword, text)`
/// pair per well-formed `tEXt` chunk, in stream order.
pub fn read_text_records(data: &Vec<u8>) -> (r: Vec<(Vec<u8>, Vec<u8>)>)
    ensures
        r@.map_values(|p: (Vec<u8>, Vec<u8>)| (p.0@, p.1@)) == text_records_of(data@),
{
    let dlen = data.len();
    let mut out: Vec<(Vec<u8>, Vec<u8>)> = Vec::new();
    let mut pos: usize = 8;
    proof {
        assert(out@.map_values(|p: (Vec<u8>, Vec<u8>)| (p.0@, p.1@)) =~= Seq::<(
            Seq<u8>,
            Seq<u8>,
        )>::empty());
    }
    if dlen <= 20 {
        return out;
    }
    while pos < dlen - 12
        invariant
            dlen == data@.len(),
            dlen > 20,
            8 <= pos <= dlen,
            text_records_of(data@) == out@.map_values(|p: (Vec<u8>, Vec<u8>)| (p.0@, p.1@))
                + text_records_from(data@, pos as int),
        decreases data@.len() - pos,
    {
        let length: u32 = (data[pos] as u32) * 0x100_0000 + (data[pos + 1] as u32) * 0x1_0000 + (
        data[pos + 2] as u32) * 0x100 + (data[pos + 3] as u32);
        let is_text = data[pos + 4] == 116 && data[pos + 5] == 69 && data[pos + 6] == 88
            && data[pos + 7] == 116;
        let body_end: u128 = (pos as u128) + 8 + (length as u128);
        let ghost pre_map = out@.map_values(|p: (Vec<u8>, Vec<u8>)| (p.0@, p.1@));
        if is_text && body_end <= dlen as u128 {
            let body_start: usize = pos + 8;
            let body_end: usize = body_end as usize;
            let ghost body = data@.subrange(body_start as int, body_end as int);
            let mut nk: usize = body_start;
            while nk < body_end && data[nk] != 0
                invariant
                    body_start <= nk <= body_end <= data@.len(),
                    body == data@.subrange(body_start as int, body_end as int),
                    forall|m: int| body_start <= m < nk ==> data@[m] != 0,
                decreases body_end - nk,
            {
                nk = nk + 1;
            }
            if nk < body_end {
                let keyword = copy_range(data, body_start, nk);
                let text = copy_range(data, nk + 1, body_end);
                proof {
                    assert(forall|m: int|
                        0 <= m < body.len() ==> #[trigger] body[m] == data@[body_start + m]);
                    lemma_first_null_at(body, nk - body_start);
                    assert(keyword@ =~= body.subrange(0, nk - body_start));
                    assert(text@ =~= body.subrange(nk - body_start + 1, body.len() as int));
                }
                out.push((keyword, text));
                proof {
                    assert(out@.map_values(|p: (Vec<u8>, Vec<u8>)| (p.0@, p.1@)) =~= pre_map
                        + seq![
                        (
                            body.subrange(0, nk - body_start as int),
                            body.subrange(nk - body_start + 1, body.len() as int),
                        ),
                    ]);
                }
            } else {
                proof {
                    assert(forall|m: int| 0 <= m < body.len() ==> #[trigger] body[m] != 0) by {
                        assert(forall|m: int|
                            0 <= m < body.len() ==> #[trigger] body[m] == data@[body_start + m]);
                    }
                    lemma_first_null_none(body);
                }
            }
        }
        let next: u128 = (pos as u128) + 12 + (length as u128);
        if next > dlen as u128 {
            proof {
                assert(text_records_of(data@) == out@.map_values(
                    |p: (Vec<u8>, Vec<u8>)| (p.0@, p.1@),
                ));
            }
            return out;
        }
        pos = next as usize;
    }
    out
}

} // verus!
