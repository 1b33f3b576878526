//! Building and re-reading exported images: the pattern is rendered into
//! an RGBA buffer and encoded as a PNG carrying three textual metadata
//! records (a description, the generating software, and the JSON-encoded
//! settings); metadata can also be attached to an existing 8-bit RGBA
//! image, preserving its pixels exactly.

use vstd::prelude::*;
use crate::chunks::read_text_records;
use crate::chunks::text_records_of;
use crate::json::decode_settings;
use crate::json::encode_settings;
use crate::json::lemma_settings_json_safe;
use crate::json::lemma_settings_round_trip;
use crate::json::parse_settings;
use crate::json::settings_json_of;
use crate::json::text_safe;
use crate::params::RectSettings;
use crate::raster::pattern_buffer;
use crate::raster::render_raster;

verus! {

/// An 8-bit RGBA image as plain values: its dimensions and its row-major
/// pixel bytes.
pub struct RawImage {
    pub width: u32,
    pub height: u32,
    pub pixels: Vec<u8>,
}

/// Why building or re-reading an exported image failed.
#[derive(Clone, Copy, Debug, PartialEq, Eq, Structural)]
pub enum MetaError {
    /// The input bytes were empty, a guard against a file still being
    /// written out.
    EmptyInput,
    /// The input was not a well-formed 8-bit RGBA image.
    Decode,
    /// The image encoder refused the data.
    Encode,
}

/// The bytes an encoder produces for an 8-bit RGBA image of the given
/// dimensions and pixels, carrying the given textual records. Encoding is
/// a function of these arguments alone.
pub uninterp spec fn png_of(
    width: nat,
    height: nat,
    pixels: Seq<u8>,
    texts: Seq<(Seq<u8>, Seq<u8>)>,
) -> Seq<u8>;

/// What decoding a byte stream as an 8-bit RGBA image yields: its
/// dimensions and pixel bytes, or nothing for a malformed stream or any
/// other color type or depth. Decoding is a function of the bytes alone.
pub uninterp spec fn png_parse(data: Seq<u8>) -> Option<(nat, nat, Seq<u8>)>;

/// A byte string fit for one side of a textual record: non-empty and at
/// most 79 bytes for a keyword, safe ASCII throughout, and the record's
/// chunk data (`keyword\0text`) within the container format's chunk size
/// limit, so its length field cannot be miswritten.
pub open spec fn record_wf(k: Seq<u8>, t: Seq<u8>) -> bool {
    &&& 1 <= k.len() <= 79
    &&& text_safe(k)
    &&& text_safe(t)
    &&& k.len() + 1 + t.len() <= 0x7fff_ffff
}

/// Relies on png's `Decoder` and `Reader` (`read_info`, `next_frame` with
/// the identity transformation): decoding is deterministic in the input
/// bytes; a malformed stream, one with a zero dimension, or one that is
/// not 8-bit RGBA, is refused. For 8-bit RGBA the output buffer holds
/// exactly `width * height * 4` bytes.
#[verifier::external_body]
fn png_decode_rgba8(data: &Vec<u8>) -> (r: Option<RawImage>)
    ensures
        match r {
            Option::Some(img) => {
                &&& png_parse(data@) == Some(
                    (img.width as nat, img.height as nat, img.pixels@),
                )
                &&& img.pixels@.len() == img.width * img.height * 4
                &&& img.width >= 1
                &&& img.height >= 1
            },
            Option::None => png_parse(data@) is None,
        },
{
    let mut decoder = png::Decoder::new(data.as_slice());
    decoder.set_transformations(png::Transformations::IDENTITY);
    let mut reader = decoder.read_info().ok()?;
    let mut buf = vec![0u8; reader.output_buffer_size()];
    let info = reader.next_frame(&mut buf).ok()?;
    match (info.color_type, info.bit_depth) {
        (png::ColorType::Rgba, png::BitDepth::Eight) => (),
        _ => {
            return None;
        },
    }
    buf.truncate(info.buffer_size());
    Some(RawImage { width: info.width, height: info.height, pixels: buf })
}

/// Relies on png's `Encoder` (`add_text_chunk`, `write_header`,
/// `write_image_data`, `finish`): it writes a deterministic 8-bit RGBA
/// stream whose simple textual chunks are exactly the three given
/// records, in order, each stored as `keyword\0text`; decoding the stream
/// gives back the dimensions and pixels (the format is lossless). Writing
/// into memory cannot fail, so with well-formed records and a matching
/// pixel buffer the only refusals left are a zero width or height. The
/// decoder grants a stream a fixed allocation budget of 64 MiB, charged
/// with a row buffer of four bytes per pixel column and with every
/// textual chunk's bytes about twice over; the two size bounds below keep
/// a stream of this shape well inside it, so the re-decode clause holds.
#[verifier::external_body]
fn png_encode_rgba8(
    width: u32,
    height: u32,
    pixels: &Vec<u8>,
    k1: &Vec<u8>,
    t1: &Vec<u8>,
    k2: &Vec<u8>,
    t2: &Vec<u8>,
    k3: &Vec<u8>,
    t3: &Vec<u8>,
) -> (r: Option<Vec<u8>>)
    requires
        pixels@.len() == width * height * 4,
        record_wf(k1@, t1@),
        record_wf(k2@, t2@),
        record_wf(k3@, t3@),
        width <= 0x3f_ffff,
        k1@.len() + 1 + t1@.len() + k2@.len() + 1 + t2@.len() + k3@.len() + 1 + t3@.len()
            <= 0x100_0000,
    ensures
        match r {
            Option::Some(out) => {
                &&& out@ == png_of(
                    width as nat,
                    height as nat,
                    pixels@,
                    seq![(k1@, t1@), (k2@, t2@), (k3@, t3@)],
                )
                &&& text_records_of(out@) == seq![(k1@, t1@), (k2@, t2@), (k3@, t3@)]
                &&& png_parse(out@) == Some((width as nat, height as nat, pixels@))
            },
            Option::None => true,
        },
        width >= 1 && height >= 1 ==> r is Some,
{
    let mut out: Vec<u8> = Vec::new();
    let mut enc = png::Encoder::new(&mut out, width, height);
    enc.set_color(png::ColorType::Rgba);
    enc.set_depth(png::BitDepth::Eight);
    enc.add_text_chunk(String::from_utf8_lossy(k1).into_owned(), String::from_utf8_lossy(t1).into_owned()).ok()?;
    enc.add_text_chunk(String::from_utf8_lossy(k2).into_owned(), String::from_utf8_lossy(t2).into_owned()).ok()?;
    enc.add_text_chunk(String::from_utf8_lossy(k3).into_owned(), String::from_utf8_lossy(t3).into_owned()).ok()?;
    let mut writer = enc.write_header().ok()?;
    writer.write_image_data(pixels).ok()?;
    writer.finish().ok()?;
    Some(out)
}

/// The keyword of the description record.
pub open spec fn description_keyword() -> Seq<u8> {
    seq![68u8, 101u8, 115u8, 99u8, 114u8, 105u8, 112u8, 116u8, 105u8, 111u8, 110u8]
}

/// The description record's text.
pub open spec fn description_text() -> Seq<u8> {
    seq![72u8, 105u8, 116u8, 111u8, 109u8, 101u8, 122u8, 97u8, 115u8, 104u8, 105u8, 32u8, 80u8, 97u8, 116u8, 116u8, 101u8, 114u8, 110u8]
}

/// The keyword of the software record.
pub open spec fn software_keyword() -> Seq<u8> {
    seq![83u8, 111u8, 102u8, 116u8, 119u8, 97u8, 114u8, 101u8]
}

/// The software record's text.
pub open spec fn software_text() -> Seq<u8> {
    seq![72u8, 105u8, 116u8, 111u8, 109u8, 101u8, 122u8, 97u8, 115u8, 104u8, 105u8, 32u8, 80u8, 97u8, 116u8, 116u8, 101u8, 114u8, 110u8, 32u8, 71u8, 101u8, 110u8, 101u8, 114u8, 97u8, 116u8, 111u8, 114u8]
}

/// The keyword of the settings record.
pub open spec fn settings_keyword() -> Seq<u8> {
    seq![83u8, 101u8, 116u8, 116u8, 105u8, 110u8, 103u8, 115u8]
}

/// The three textual records of an exported image: the description, the
/// software, and the JSON-encoded settings.
pub open spec fn export_texts(p: RectSettings) -> Seq<(Seq<u8>, Seq<u8>)> {
    seq![
        (description_keyword(), description_text()),
        (software_keyword(), software_text()),
        (settings_keyword(), settings_json_of(p)),
    ]
}

/// The bytes `Description` as a value.
fn description_keyword_vec() -> (r: Vec<u8>)
    ensures
        r@ == description_keyword(),
{
    let mut v: Vec<u8> = Vec::new();
    v.push(68u8);
    v.push(101u8);
    v.push(115u8);
    v.push(99u8);
    v.push(114u8);
    v.push(105u8);
    v.push(112u8);
    v.push(116u8);
    v.push(105u8);
    v.push(111u8);
    v.push(110u8);
    proof {
        assert(v@ =~= description_keyword());
    }
    v
}

/// The bytes `Hitomezashi Pattern` as a value.
fn description_text_vec() -> (r: Vec<u8>)
    ensures
        r@ == description_text(),
{
    let mut v: Vec<u8> = Vec::new();
    v.push(72u8);
    v.push(105u8);
    v.push(116u8);
    v.push(111u8);
    v.push(109u8);
    v.push(101u8);
    v.push(122u8);
    v.push(97u8);
    v.push(115u8);
    v.push(104u8);
    v.push(105u8);
    v.push(32u8);
    v.push(80u8);
    v.push(97u8);
    v.push(116u8);
    v.push(116u8);
    v.push(101u8);
    v.push(114u8);
    v.push(110u8);
    proof {
        assert(v@ =~= description_text());
    }
    v
}

/// The bytes `Software` as a value.
fn software_keyword_vec() -> (r: Vec<u8>)
    ensures
        r@ == software_keyword(),
{
    let mut v: Vec<u8> = Vec::new();
    v.push(83u8);
    v.push(111u8);
    v.push(102u8);
    v.push(116u8);
    v.push(119u8);
    v.push(97u8);
    v.push(114u8);
    v.push(101u8);
    proof {
        assert(v@ =~= software_keyword());
    }
    v
}

/// The bytes `Hitomezashi Pattern Generator` as a value.
fn software_text_vec() -> (r: Vec<u8>)
    ensures
        r@ == software_text(),
{
    let mut v: Vec<u8> = Vec::new();
    v.push(72u8);
    v.push(105u8);
    v.push(116u8);
    v.push(111u8);
    v.push(109u8);
    v.push(101u8);
    v.push(122u8);
    v.push(97u8);
    v.push(115u8);
    v.push(104u8);
    v.push(105u8);
    v.push(32u8);
    v.push(80u8);
    v.push(97u8);
    v.push(116u8);
    v.push(116u8);
    v.push(101u8);
    v.push(114u8);
    v.push(110u8);
    v.push(32u8);
    v.push(71u8);
    v.push(101u8);
    v.push(110u8);
    v.push(101u8);
    v.push(114u8);
    v.push(97u8);
    v.push(116u8);
    v.push(111u8);
    v.push(114u8);
    proof {
        assert(v@ =~= software_text());
    }
    v
}

/// The bytes `Settings` as a value.
fn settings_keyword_vec() -> (r: Vec<u8>)
    ensures
        r@ == settings_keyword(),
{
    let mut v: Vec<u8> = Vec::new();
    v.push(83u8);
    v.push(101u8);
    v.push(116u8);
    v.push(116u8);
    v.push(105u8);
    v.push(110u8);
    v.push(103u8);
    v.push(115u8);
    proof {
        assert(v@ =~= settings_keyword());
    }
    v
}

/// The fixed records are fit for textual records, and so is the encoded
/// settings record whenever its text fits the chunk size limit.
proof fn lemma_export_texts_wf(p: RectSettings)
    ensures
        record_wf(description_keyword(), description_text()),
        record_wf(software_keyword(), software_text()),
        settings_json_of(p).len() + 9 <= 0x7fff_ffff ==> record_wf(
            settings_keyword(),
            settings_json_of(p),
        ),
{
    lemma_settings_json_safe(
        p.spacing_tenths as int,
        p.horz_seed as int,
        p.vert_seed as int,
        p.horz_selectors@,
        p.vert_selectors@,
    );
}

/// Render the pattern and encode it as a PNG with the three metadata
/// records: the image is exactly the rasterized pattern, and the
/// container's textual records are exactly the three of `export_texts`,
/// with the settings JSON readable back out of the stream. The export is
/// owed to succeed for any non-degenerate size whose rows and settings
/// text fit a decoder's allocation budget, so that what is written can be
/// read back.
pub fn export_png(width: u32, height: u32, settings: &RectSettings) -> (r: Result<
    Vec<u8>,
    MetaError,
>)
    requires
        settings.wf(),
        width * height * 4 <= usize::MAX,
    ensures
        match r {
            Result::Ok(out) => {
                &&& out@ == png_of(
                    width as nat,
                    height as nat,
                    pattern_buffer(
                        width as int,
                        height as int,
                        settings.dash_px_spec(),
                        settings.horz_selectors@,
                        settings.vert_selectors@,
                    ),
                    export_texts(*settings),
                )
                &&& text_records_of(out@) == export_texts(*settings)
                &&& png_parse(out@) == Some(
                    (
                        width as nat,
                        height as nat,
                        pattern_buffer(
                            width as int,
                            height as int,
                            settings.dash_px_spec(),
                            settings.horz_selectors@,
                            settings.vert_selectors@,
                        ),
                    ),
                )
            },
            Result::Err(e) => e == MetaError::Encode,
        },
        1 <= width <= 0x3f_ffff && height >= 1 && settings_json_of(*settings).len() + 78
            <= 0x100_0000 ==> r is Ok,
{
    if width > 0x3f_ffff {
        return Result::Err(MetaError::Encode);
    }
    let pixels = render_raster(width, height, settings);
    let k1 = description_keyword_vec();
    let t1 = description_text_vec();
    let k2 = software_keyword_vec();
    let t2 = software_text_vec();
    let k3 = settings_keyword_vec();
    let t3 = encode_settings(settings);
    if t3.len() > 0x100_0000 - 78 {
        return Result::Err(MetaError::Encode);
    }
    proof {
        lemma_export_texts_wf(*settings);
    }
    match png_encode_rgba8(width, height, &pixels, &k1, &t1, &k2, &t2, &k3, &t3) {
        Option::Some(out) => {
            proof {
                assert(seq![(k1@, t1@), (k2@, t2@), (k3@, t3@)] =~= export_texts(*settings));
            }
            Result::Ok(out)
        },
        Option::None => Result::Err(MetaError::Encode),
    }
}

/// Attach the three metadata records to an existing 8-bit RGBA image:
/// the result decodes to exactly the same dimensions and pixel bytes, and
/// its textual records are exactly the three of `export_texts`. Empty
/// input is refused (a guard against a file still being written), and so
/// is anything that does not decode as 8-bit RGBA; anything that does
/// decode is owed a success, as long as its width and the settings text
/// fit a decoder's allocation budget. Nothing here relates the output's
/// byte count to the input's: the pixel data is re-encoded, and
/// recompression could in principle shrink it, so the usual growth is
/// observed rather than promised.
pub fn attach_metadata(data: &Vec<u8>, settings: &RectSettings) -> (r: Result<Vec<u8>, MetaError>)
    requires
        settings.wf(),
    ensures
        match r {
            Result::Ok(out) => {
                &&& png_parse(data@) matches Some(orig) && png_parse(out@) == Some(orig)
                &&& text_records_of(out@) == export_texts(*settings)
                &&& data@.len() > 0
            },
            Result::Err(e) => {
                &&& e == MetaError::EmptyInput <==> data@.len() == 0
                &&& e == MetaError::Decode ==> png_parse(data@) is None
            },
        },
        data@.len() > 0 && (png_parse(data@) matches Some(orig) && orig.0 <= 0x3f_ffff)
            && settings_json_of(*settings).len() + 78 <= 0x100_0000 ==> r is Ok,
{
    if data.len() == 0 {
        return Result::Err(MetaError::EmptyInput);
    }
    let img = match png_decode_rgba8(data) {
        Option::Some(img) => img,
        Option::None => {
            return Result::Err(MetaError::Decode);
        },
    };
    if img.width > 0x3f_ffff {
        return Result::Err(MetaError::Encode);
    }
    let k1 = description_keyword_vec();
    let t1 = description_text_vec();
    let k2 = software_keyword_vec();
    let t2 = software_text_vec();
    let k3 = settings_keyword_vec();
    let t3 = encode_settings(settings);
    if t3.len() > 0x100_0000 - 78 {
        return Result::Err(MetaError::Encode);
    }
    proof {
        lemma_export_texts_wf(*settings);
    }
    match png_encode_rgba8(
        img.width,
        img.height,
        &img.pixels,
        &k1,
        &t1,
        &k2,
        &t2,
        &k3,
        &t3,
    ) {
        Option::Some(out) => {
            proof {
                assert(seq![(k1@, t1@), (k2@, t2@), (k3@, t3@)] =~= export_texts(*settings));
            }
            Result::Ok(out)
        },
        Option::None => Result::Err(MetaError::Encode),
    }
}

/// The text of the first record carrying the given keyword, if any.
pub open spec fn find_record_text(rs: Seq<(Seq<u8>, Seq<u8>)>, key: Seq<u8>) -> Option<Seq<u8>>
    decreases rs.len(),
{
    if rs.len() == 0 {
        None
    } else if rs[0].0 == key {
        Some(rs[0].1)
    } else {
        find_record_text(rs.skip(1), key)
    }
}

/// Whether two byte strings are equal, checked byte by byte.
fn bytes_eq(a: &Vec<u8>, b: &Vec<u8>) -> (r: bool)
    ensures
        r == (a@ == b@),
{
    if a.len() != b.len() {
        return false;
    }
    let mut k: usize = 0;
    while k < a.len()
        invariant
            a@.len() == b@.len(),
            k <= a@.len(),
            forall|m: int| 0 <= m < k ==> a@[m] == b@[m],
        decreases a@.len() - k,
    {
        if a[k] != b[k] {
            return false;
        }
        k = k + 1;
    }
    proof {
        assert(a@ =~= b@);
    }
    true
}

/// Recover the pattern parameters out of an image's bytes: the first
/// settings record among the container's textual records, decoded from
/// its JSON. Nothing comes back when there is no settings record or when
/// its text is not a canonical settings object.
pub fn recover_settings(data: &Vec<u8>) -> (r: Option<RectSettings>)
    ensures
        match find_record_text(text_records_of(data@), settings_keyword()) {
            Option::Some(t) => match r {
                Option::Some(p) => p.wf() && parse_settings(t) == Some(
                    (
                        p.spacing_tenths as int,
                        p.horz_seed as int,
                        p.vert_seed as int,
                        p.horz_selectors@,
                        p.vert_selectors@,
                    ),
                ),
                Option::None => parse_settings(t) matches Option::None,
            },
            Option::None => r matches Option::None,
        },
{
    let records = read_text_records(data);
    let key = settings_keyword_vec();
    let ghost rs = records@.map_values(|p: (Vec<u8>, Vec<u8>)| (p.0@, p.1@));
    proof {
        assert(rs.skip(0) =~= rs);
    }
    let mut i: usize = 0;
    while i < records.len()
        invariant
            rs == records@.map_values(|p: (Vec<u8>, Vec<u8>)| (p.0@, p.1@)),
            rs == text_records_of(data@),
            key@ == settings_keyword(),
            i <= records@.len(),
            find_record_text(rs, key@) == find_record_text(rs.skip(i as int), key@),
        decreases records@.len() - i,
    {
        if bytes_eq(&records[i].0, &key) {
            proof {
                assert(rs.skip(i as int)[0] == rs[i as int]);
            }
            return decode_settings(&records[i].1);
        }
        proof {
            assert(rs.skip(i as int)[0] == rs[i as int]);
            assert(rs.skip(i as int).skip(1) =~= rs.skip(i + 1));
        }
        i = i + 1;
    }
    proof {
        assert(rs.skip(records@.len() as int) =~= Seq::<(Seq<u8>, Seq<u8>)>::empty());
    }
    None
}

/// The settings record is the first, and only, record of an export's
/// three that carries the settings keyword.
#[verifier::rlimit(100)]
proof fn lemma_find_settings_record(p: RectSettings)
    ensures
        find_record_text(export_texts(p), settings_keyword()) == Some(settings_json_of(p)),
{
    let rs = export_texts(p);
    assert(rs[0].0 != settings_keyword()) by {
        assert(description_keyword()[0] != settings_keyword()[0]);
    }
    assert(rs[1].0 != settings_keyword()) by {
        assert(software_keyword()[1] != settings_keyword()[1]);
    }
    assert(rs.skip(1)[0] == rs[1]);
    assert(rs.skip(1).skip(1) =~= rs.skip(2));
    assert(rs.skip(2)[0] == rs[2]);
    assert(find_record_text(rs, settings_keyword()) == find_record_text(
        rs.skip(1),
        settings_keyword(),
    ));
    assert(find_record_text(rs.skip(1), settings_keyword()) == find_record_text(
        rs.skip(2),
        settings_keyword(),
    ));
    assert(find_record_text(rs.skip(2), settings_keyword()) == Some(rs[2].1));
}

/// Law: what an export writes, recovery reads back. An exported image's
/// records hold the settings record, its text is the encoded settings,
/// and parsing that text gives back the spacing, seeds and selector
/// sequences of the exported parameters.
pub proof fn lemma_export_recover(p: RectSettings)
    requires
        p.wf(),
    ensures
        find_record_text(export_texts(p), settings_keyword()) == Some(settings_json_of(p)),
        parse_settings(settings_json_of(p)) == Some(
            (
                p.spacing_tenths as int,
                p.horz_seed as int,
                p.vert_seed as int,
                p.horz_selectors@,
                p.vert_selectors@,
            ),
        ),
{
    lemma_find_settings_record(p);
    lemma_settings_round_trip(
        p.spacing_tenths as int,
        p.horz_seed as int,
        p.vert_seed as int,
        p.horz_selectors@,
        p.vert_selectors@,
    );
}

} // verus!
