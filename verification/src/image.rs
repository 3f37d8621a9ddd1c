//! Decoding images for the image view: encoded bytes (PNG/JPEG/GIF/WebP) into
//! RGBA8 pixels, and base64 text (optionally a `data:…;base64,` URI) into bytes
//! first.
use vstd::prelude::*;
use crate::text::{is_ws, is_whitespace, chars_of, string_of, slice_range};

verus! {

broadcast use vstd::seq_lib::group_seq_properties;

#[verifier::external_type_specification]
#[verifier::external_body]
pub struct ExDecodeError(base64::DecodeError);

#[verifier::external_type_specification]
#[verifier::external_body]
pub struct ExImageError(image::ImageError);

/// Names what standard-alphabet, padded base64 decoding gives for a text: the
/// bytes, or none when the text is not valid base64.
pub uninterp spec fn base64_standard(text: Seq<char>) -> Option<Seq<u8>>;

/// `base64::engine::general_purpose::STANDARD.decode`: the bytes the text encodes.
/// Claimed of it: it succeeds exactly when [`base64_standard`] of the text is some
/// bytes, and then returns those bytes.
#[verifier::external_body]
fn base64_decode(text: &str) -> (r: Result<Vec<u8>, base64::DecodeError>)
    ensures
        match r {
            Ok(v) => base64_standard(text@) == Some(v@),
            Err(_) => base64_standard(text@) is None,
        },
{
    base64::Engine::decode(&base64::engine::general_purpose::STANDARD, text)
}

/// Names the relation between encoded image bytes and an image the decoders may
/// make of them: width, height and RGBA8 pixel bytes. A relation, not a function:
/// it claims no two decodings of the same bytes agree (the decoders consult
/// process-wide hooks), only that what came back was decoded from those bytes.
pub uninterp spec fn decoded_from(bytes: Seq<u8>, width: u32, height: u32, rgba: Seq<u8>) -> bool;

/// `image::load_from_memory` followed by `DynamicImage::to_rgba8`, `dimensions`
/// and `into_raw` (the conversions of its result): the decoded image as width,
/// height and RGBA8 pixel bytes. Claimed of it: on success the image is one
/// [`decoded_from`] the bytes handed in, and the pixel buffer holds
/// at least 4 bytes for each of the `width × height` pixels (`ImageBuffer::from_raw`
/// accepts only such a buffer, and `to_rgba8` either clones it or builds one of
/// exactly that length). Which image comes back, and whether decoding succeeds, is
/// left unsaid: `load_from_memory` consults process-wide decoding and
/// format-detection hooks that any code may register, so the same bytes need not
/// decode the same way twice.
#[verifier::external_body]
fn load_rgba8(bytes: &[u8]) -> (r: Result<(u32, u32, Vec<u8>), image::ImageError>)
    ensures
        r matches Ok((w, h, px)) ==> decoded_from(bytes@, w, h, px@) && 4 * (w as int) * (h as int)
            <= px@.len(),
{
    let rgba = image::load_from_memory(bytes)?.to_rgba8();
    let (w, h) = rgba.dimensions();
    Ok((w, h, rgba.into_raw()))
}

/// A decoded image: `width × height` pixels, 4 bytes (R, G, B, A) each.
#[derive(Clone, Debug)]
pub struct DecodedImage {
    pub width: u32,
    pub height: u32,
    pub rgba: Vec<u8>,
}

impl DecodedImage {
    /// The pixel bytes cover every pixel: 4 bytes for each of `width × height`.
    pub open spec fn pixels_fit(&self) -> bool {
        4 * (self.width as int) * (self.height as int) <= self.rgba@.len()
    }
}

/// Why an image could not be decoded.
#[derive(Debug)]
pub enum ImageLoadError {
    /// The text is not valid base64.
    Base64(base64::DecodeError),
    /// The bytes are no image the decoders read.
    Image(image::ImageError),
}

/// Decode encoded image bytes (PNG/JPEG/GIF/WebP) into RGBA8 pixels. The bytes go
/// to the decoders as they are; a failure is reported as [`ImageLoadError::Image`],
/// and a decoded image is one decoded from the bytes, with pixel bytes for all its
/// pixels.
pub fn decode(bytes: &[u8]) -> (r: Result<DecodedImage, ImageLoadError>)
    ensures
        match r {
            Ok(img) => decoded_from(bytes@, img.width, img.height, img.rgba@) && img.pixels_fit(),
            Err(e) => e is Image,
        },
{
    match load_rgba8(bytes) {
        Ok((w, h, px)) => Ok(DecodedImage { width: w, height: h, rgba: px }),
        Err(e) => Err(ImageLoadError::Image(e)),
    }
}

/// The start of the last occurrence of `m` in `s` at or before `i`.
pub open spec fn last_at(s: Seq<char>, m: Seq<char>, i: int) -> Option<int>
    decreases i + 1,
{
    if i < 0 {
        None
    } else if i + m.len() <= s.len() && s.subrange(i, i + m.len()) == m {
        Some(i)
    } else {
        last_at(s, m, i - 1)
    }
}

/// `s` without its leading whitespace.
pub open spec fn trim_start(s: Seq<char>) -> Seq<char>
    decreases s.len(),
{
    if s.len() > 0 && is_ws(s[0]) {
        trim_start(s.drop_first())
    } else {
        s
    }
}

/// `s` without its trailing whitespace.
pub open spec fn trim_end(s: Seq<char>) -> Seq<char>
    decreases s.len(),
{
    if s.len() > 0 && is_ws(s.last()) {
        trim_end(s.drop_last())
    } else {
        s
    }
}

/// The base64 text of `data`: what follows the last `base64,` (the whole text
/// when there is none), without surrounding whitespace.
pub open spec fn payload_spec(data: Seq<char>) -> Seq<char> {
    let m = "base64,"@;
    let after = match last_at(data, m, data.len() - m.len()) {
        Some(i) => data.subrange(i + m.len(), data.len() as int),
        None => data,
    };
    trim_end(trim_start(after))
}

proof fn lemma_trim_start(s: Seq<char>, k: int)
    requires
        0 <= k <= s.len(),
        forall|j: int| 0 <= j < k ==> is_ws(s[j]),
        k == s.len() || !is_ws(s[k]),
    ensures
        trim_start(s) == s.subrange(k, s.len() as int),
    decreases k,
{
    if k > 0 {
        lemma_trim_start(s.drop_first(), k - 1);
        assert(s.drop_first().subrange(k - 1, s.len() - 1) =~= s.subrange(k, s.len() as int));
    } else {
        assert(s.subrange(0, s.len() as int) =~= s);
    }
}

proof fn lemma_trim_end(s: Seq<char>, e: int)
    requires
        0 <= e <= s.len(),
        forall|j: int| e <= j < s.len() ==> is_ws(s[j]),
        e == 0 || !is_ws(s[e - 1]),
    ensures
        trim_end(s) == s.subrange(0, e),
    decreases s.len() - e,
{
    if e < s.len() {
        lemma_trim_end(s.drop_last(), e);
        assert(s.drop_last().subrange(0, e) =~= s.subrange(0, e));
    } else {
        assert(s.subrange(0, e) =~= s);
    }
}

/// The base64 text carried by `data` (see [`payload_spec`]).
pub fn base64_payload(data: &str) -> (r: String)
    ensures
        r@ == payload_spec(data@),
{
    let s = chars_of(data);
    let m = chars_of("base64,");
    proof {
        reveal_strlit("base64,");
    }
    let n = s.len();
    let ml = m.len();
    // Search backwards for the marker.
    let mut start: usize = 0;
    let mut found = false;
    if n >= ml {
        let mut i: usize = n - ml + 1;
        while i > 0 && !found
            invariant
                i <= n - ml + 1,
                n >= ml,
                s@ == data@,
                m@ == "base64,"@,
                ml == m@.len(),
                n == s@.len(),
                !found ==> start == 0 && last_at(s@, m@, n - ml) == last_at(s@, m@, i - 1),
                found ==> ml <= start <= n && last_at(s@, m@, n - ml) == Some(start - ml),
            decreases i,
        {
            let j = i - 1;
            let mut k: usize = 0;
            let mut same = true;
            while k < ml
                invariant
                    k <= ml,
                    j + ml <= n,
                    ml == m@.len(),
                    n == s@.len(),
                    same == (forall|a: int| 0 <= a < k ==> s@[j + a] == m@[a]),
                decreases ml - k,
            {
                if s[j + k] != m[k] {
                    same = false;
                }
                k = k + 1;
            }
            if same {
                assert(s@.subrange(j as int, j + ml) =~= m@);
                start = j + ml;
                found = true;
            } else {
                proof {
                    let a = choose|a: int| 0 <= a < k && s@[j + a] != m@[a];
                    assert(s@.subrange(j as int, j + ml)[a] != m@[a]);
                }
            }
            i = i - 1;
        }
        proof {
            if !found {
                assert(last_at(s@, m@, -1) is None);
            }
        }
    }
    proof {
        if n < ml {
            assert(last_at(s@, m@, n - ml) is None);
        }
    }
    // `start` is where the payload begins; now trim it.
    let mut lo = start;
    while lo < n && is_whitespace(s[lo])
        invariant
            start <= lo <= n,
            n == s@.len(),
            forall|j: int| start <= j < lo ==> is_ws(s@[j]),
        decreases n - lo,
    {
        lo = lo + 1;
    }
    let mut hi = n;
    while hi > lo && is_whitespace(s[hi - 1])
        invariant
            lo <= hi <= n,
            n == s@.len(),
            forall|j: int| hi <= j < n ==> is_ws(s@[j]),
        decreases hi,
    {
        hi = hi - 1;
    }
    let out = slice_range(s.as_slice(), lo, hi);
    proof {
        let after = s@.subrange(start as int, n as int);
        assert(found ==> last_at(data@, "base64,"@, data@.len() - "base64,"@.len()) == Some(start - ml));
        assert(!found ==> start == 0 && last_at(data@, "base64,"@, data@.len() - "base64,"@.len()) is None);
        assert(!found ==> after =~= data@);
        lemma_trim_start(after, lo - start);
        let t = trim_start(after);
        assert(t =~= s@.subrange(lo as int, n as int));
        lemma_trim_end(t, hi - lo);
        assert(trim_end(t) =~= s@.subrange(lo as int, hi as int));
    }
    string_of(out.as_slice())
}

/// Decode a base64 string or `data:` URI into an image: the base64 text after the
/// last `base64,` (or the whole text), trimmed, is decoded to bytes, and the bytes
/// to an image.
pub fn decode_base64(data: &str) -> (r: Result<DecodedImage, ImageLoadError>)
    ensures
        match base64_standard(payload_spec(data@)) {
            None => r matches Err(e) && e is Base64,
            Some(b) => match r {
                Ok(img) => decoded_from(b, img.width, img.height, img.rgba@) && img.pixels_fit(),
                Err(e) => e is Image,
            },
        },
{
    let payload = base64_payload(data);
    match base64_decode(payload.as_str()) {
        Ok(bytes) => decode(bytes.as_slice()),
        Err(e) => Err(ImageLoadError::Base64(e)),
    }
}

} // verus!
