//! Image headers: the pixel size of PNG, GIF, JPEG and WebP data read from the
//! first bytes, a per-path cache of it, placeholder captions, and cover thumbnails.
use vstd::prelude::*;

use crate::paths::{extension, file_extension};
use crate::text::{
    chars_of, eq_ignore_ascii_case, eq_ignore_ascii_case_exec, find_char_from, push_str,
    string_from_range,
};

verus! {

// ---------------------------------------------------------------------------
// Header decoding
// ---------------------------------------------------------------------------

pub open spec fn be16(b: Seq<u8>, i: int) -> int {
    b[i] * 256 + b[i + 1]
}

pub open spec fn le16(b: Seq<u8>, i: int) -> int {
    b[i] + b[i + 1] * 256
}

pub open spec fn be32(b: Seq<u8>, i: int) -> int {
    b[i] * 16777216 + b[i + 1] * 65536 + b[i + 2] * 256 + b[i + 3]
}

pub open spec fn le24(b: Seq<u8>, i: int) -> int {
    b[i] + b[i + 1] * 256 + b[i + 2] * 65536
}

pub open spec fn bytes_at(b: Seq<u8>, i: int, pat: Seq<u8>) -> bool {
    0 <= i && i + pat.len() <= b.len() && b.subrange(i, i + pat.len()) == pat
}

pub open spec fn png_signature() -> Seq<u8> {
    seq![0x89u8, 0x50, 0x4e, 0x47, 0x0d, 0x0a, 0x1a, 0x0a]
}

/// Start-of-frame markers, which carry the frame's size.
pub open spec fn is_sof_marker(m: u8) -> bool {
    m == 0xc0 || m == 0xc1 || m == 0xc2 || m == 0xc3 || m == 0xc5 || m == 0xc6 || m == 0xc7 || m
        == 0xc9 || m == 0xca || m == 0xcb || m == 0xcd || m == 0xce || m == 0xcf
}

/// Position of the first byte from `pos` on that is not `0xff`.
pub open spec fn skip_ff(b: Seq<u8>, pos: int) -> int
    decreases b.len() - pos,
{
    if 0 <= pos < b.len() && b[pos] == 0xff {
        skip_ff(b, pos + 1)
    } else {
        pos
    }
}

pub proof fn lemma_skip_ff(b: Seq<u8>, pos: int)
    requires
        0 <= pos <= b.len(),
    ensures
        pos <= skip_ff(b, pos) <= b.len(),
    decreases b.len() - pos,
{
    if pos < b.len() && b[pos] == 0xff {
        lemma_skip_ff(b, pos + 1);
    }
}

/// Walks the JPEG segments from `pos` looking for a start-of-frame segment.
pub open spec fn jpeg_scan(b: Seq<u8>, pos: int) -> Option<(u32, u32)>
    decreases b.len() - pos,
{
    if pos < 0 || pos + 3 >= b.len() {
        None
    } else if b[pos] != 0xff {
        jpeg_scan(b, pos + 1)
    } else {
        let p = skip_ff(b, pos);
        proof {
            lemma_skip_ff(b, pos);
        }
        if p >= b.len() {
            None
        } else {
            let marker = b[p];
            let q = p + 1;
            if marker == 0x01 || marker == 0xd8 || marker == 0xd9 {
                jpeg_scan(b, q)
            } else if q + 2 > b.len() {
                None
            } else {
                let seg = be16(b, q);
                if seg < 2 || q + seg > b.len() {
                    None
                } else if is_sof_marker(marker) {
                    if q + 7 > b.len() {
                        None
                    } else {
                        Some((be16(b, q + 5) as u32, be16(b, q + 3) as u32))
                    }
                } else {
                    jpeg_scan(b, q + seg)
                }
            }
        }
    }
}

/// The size in a JPEG stream: the first start-of-frame segment's.
pub fn jpeg_dimensions(bytes: &[u8]) -> (r: Option<(u32, u32)>)
    ensures
        r == jpeg_scan(bytes@, 2),
{
    let len = bytes.len();
    let mut pos: usize = 2;
    while pos < len && len - pos > 3
        invariant
            len == bytes@.len(),
            2 <= pos,
            jpeg_scan(bytes@, pos as int) == jpeg_scan(bytes@, 2),
        decreases len - pos,
    {
        if bytes[pos] != 0xff {
            pos += 1;
            continue;
        }
        let ghost start = pos;
        while pos < len && bytes[pos] == 0xff
            invariant
                len == bytes@.len(),
                start <= pos <= len,
                skip_ff(bytes@, start as int) == skip_ff(bytes@, pos as int),
            decreases len - pos,
        {
            pos += 1;
        }
        if pos >= len {
            return None;
        }
        let marker = bytes[pos];
        pos += 1;
        if marker == 0x01 || marker == 0xd8 || marker == 0xd9 {
            continue;
        }
        if pos > len || len - pos < 2 {
            return None;
        }
        let seg = (bytes[pos] as usize) * 256 + (bytes[pos + 1] as usize);
        if seg < 2 || seg > len - pos {
            return None;
        }
        if marker == 0xc0 || marker == 0xc1 || marker == 0xc2 || marker == 0xc3 || marker == 0xc5
            || marker == 0xc6 || marker == 0xc7 || marker == 0xc9 || marker == 0xca || marker
            == 0xcb || marker == 0xcd || marker == 0xce || marker == 0xcf {
            if len - pos < 7 {
                return None;
            }
            let height = (bytes[pos + 3] as u32) * 256 + (bytes[pos + 4] as u32);
            let width = (bytes[pos + 5] as u32) * 256 + (bytes[pos + 6] as u32);
            return Some((width, height));
        }
        pos += seg;
    }
    None
}

pub open spec fn webp_scan_vp8(b: Seq<u8>, p: int) -> Option<(u32, u32)>
    decreases b.len() - p,
{
    if p < 0 || p + 7 > b.len() {
        None
    } else if b[p] == 0x9d && b[p + 1] == 0x01 && b[p + 2] == 0x2a {
        Some(((le16(b, p + 3) % 16384) as u32, (le16(b, p + 5) % 16384) as u32))
    } else {
        webp_scan_vp8(b, p + 1)
    }
}

/// The size in a WebP container (`VP8X`, lossless `VP8L` or lossy `VP8 ` chunk).
pub open spec fn webp_size(b: Seq<u8>) -> Option<(u32, u32)> {
    if b.len() < 30 || !bytes_at(b, 0, seq![0x52u8, 0x49, 0x46, 0x46]) || !bytes_at(
        b,
        8,
        seq![0x57u8, 0x45, 0x42, 0x50],
    ) {
        None
    } else if bytes_at(b, 12, seq![0x56u8, 0x50, 0x38, 0x58]) {
        Some(((1 + le24(b, 24)) as u32, (1 + le24(b, 27)) as u32))
    } else if bytes_at(b, 12, seq![0x56u8, 0x50, 0x38, 0x4c]) {
        if b[20] == 0x2f {
            Some(
                (
                    (1 + b[21] + (b[22] % 64) * 256) as u32,
                    (1 + (b[22] / 64) + b[23] * 4 + (b[24] % 16) * 1024) as u32,
                ),
            )
        } else {
            None
        }
    } else if bytes_at(b, 12, seq![0x56u8, 0x50, 0x38, 0x20]) {
        webp_scan_vp8(b, 20)
    } else {
        None
    }
}

fn bytes_eq(b: &[u8], i: usize, pat: &[u8]) -> (r: bool)
    ensures
        r == bytes_at(b@, i as int, pat@),
{
    if i > b.len() || pat.len() > b.len() - i {
        return false;
    }
    let mut k: usize = 0;
    while k < pat.len()
        invariant
            i + pat.len() <= b.len(),
            k <= pat.len(),
            forall|j: int| 0 <= j < k ==> b@[i + j] == pat@[j],
        decreases pat.len() - k,
    {
        if b[i + k] != pat[k] {
            assert(b@.subrange(i as int, i + pat.len())[k as int] != pat@[k as int]);
            return false;
        }
        k += 1;
    }
    assert(b@.subrange(i as int, i + pat.len()) =~= pat@);
    true
}

pub fn webp_dimensions(bytes: &[u8]) -> (r: Option<(u32, u32)>)
    ensures
        r == webp_size(bytes@),
{
    let riff: [u8; 4] = [0x52, 0x49, 0x46, 0x46];
    let webp: [u8; 4] = [0x57, 0x45, 0x42, 0x50];
    let vp8x: [u8; 4] = [0x56, 0x50, 0x38, 0x58];
    let vp8l: [u8; 4] = [0x56, 0x50, 0x38, 0x4c];
    let vp8: [u8; 4] = [0x56, 0x50, 0x38, 0x20];
    assert(riff@ =~= seq![0x52u8, 0x49, 0x46, 0x46]);
    assert(webp@ =~= seq![0x57u8, 0x45, 0x42, 0x50]);
    assert(vp8x@ =~= seq![0x56u8, 0x50, 0x38, 0x58]);
    assert(vp8l@ =~= seq![0x56u8, 0x50, 0x38, 0x4c]);
    assert(vp8@ =~= seq![0x56u8, 0x50, 0x38, 0x20]);
    if bytes.len() < 30 || !bytes_eq(bytes, 0, &riff) || !bytes_eq(bytes, 8, &webp) {
        return None;
    }
    if bytes_eq(bytes, 12, &vp8x) {
        let w = 1 + (bytes[24] as u32) + (bytes[25] as u32) * 256 + (bytes[26] as u32) * 65536;
        let h = 1 + (bytes[27] as u32) + (bytes[28] as u32) * 256 + (bytes[29] as u32) * 65536;
        return Some((w, h));
    }
    if bytes_eq(bytes, 12, &vp8l) {
        if bytes[20] == 0x2f {
            let w = 1 + (bytes[21] as u32) + ((bytes[22] as u32) % 64) * 256;
            let h = 1 + ((bytes[22] as u32) / 64) + (bytes[23] as u32) * 4 + ((bytes[24] as u32)
                % 16) * 1024;
            return Some((w, h));
        }
        return None;
    }
    if bytes_eq(bytes, 12, &vp8) {
        let mut p: usize = 20;
        while p < bytes.len() && bytes.len() - p >= 7
            invariant
                20 <= p,
                webp_size(bytes@) == webp_scan_vp8(bytes@, p as int),
            decreases bytes.len() - p,
        {
            if bytes[p] == 0x9d && bytes[p + 1] == 0x01 && bytes[p + 2] == 0x2a {
                let w = ((bytes[p + 3] as u32) + (bytes[p + 4] as u32) * 256) % 16384;
                let h = ((bytes[p + 5] as u32) + (bytes[p + 6] as u32) * 256) % 16384;
                return Some((w, h));
            }
            p += 1;
        }
        return None;
    }
    None
}

/// Pixel size read from an image header: PNG, GIF, JPEG, else WebP.
pub open spec fn raster_size(b: Seq<u8>) -> Option<(u32, u32)> {
    if b.len() >= 24 && bytes_at(b, 0, png_signature()) {
        Some((be32(b, 16) as u32, be32(b, 20) as u32))
    } else if b.len() >= 10 && (bytes_at(b, 0, seq![0x47u8, 0x49, 0x46, 0x38, 0x37, 0x61])
        || bytes_at(b, 0, seq![0x47u8, 0x49, 0x46, 0x38, 0x39, 0x61])) {
        Some((le16(b, 6) as u32, le16(b, 8) as u32))
    } else if bytes_at(b, 0, seq![0xffu8, 0xd8]) {
        jpeg_scan(b, 2)
    } else {
        webp_size(b)
    }
}

/// Only PNG, GIF, JPEG and WebP headers give a size: data whose first byte
/// cannot begin one of them (an SVG or other text document, whether it opens
/// with `<`, white space or a byte-order mark) gives none.
pub proof fn law_only_raster_headers_have_a_size(b: Seq<u8>)
    ensures
        raster_size(b) is Some ==> b.len() > 0 && (b[0] == 0x89 || b[0] == 0x47 || b[0] == 0xff || b[0] == 0x52),
{
    if raster_size(b) is Some {
        if b.len() >= 24 && bytes_at(b, 0, png_signature()) {
            assert(b[0] == b.subrange(0, 8)[0]);
        } else if b.len() >= 10 && bytes_at(b, 0, seq![0x47u8, 0x49, 0x46, 0x38, 0x37, 0x61]) {
            assert(b[0] == b.subrange(0, 6)[0]);
        } else if b.len() >= 10 && bytes_at(b, 0, seq![0x47u8, 0x49, 0x46, 0x38, 0x39, 0x61]) {
            assert(b[0] == b.subrange(0, 6)[0]);
        } else if bytes_at(b, 0, seq![0xffu8, 0xd8]) {
            assert(b[0] == b.subrange(0, 2)[0]);
        } else {
            assert(b[0] == b.subrange(0, 4)[0]);
        }
    }
}

/// Width and height of a raster image, read from its first bytes only.
pub fn raster_dimensions(bytes: &[u8]) -> (r: Option<(u32, u32)>)
    ensures
        r == raster_size(bytes@),
{
    let png: [u8; 8] = [0x89, 0x50, 0x4e, 0x47, 0x0d, 0x0a, 0x1a, 0x0a];
    let gif7: [u8; 6] = [0x47, 0x49, 0x46, 0x38, 0x37, 0x61];
    let gif9: [u8; 6] = [0x47, 0x49, 0x46, 0x38, 0x39, 0x61];
    let jpeg: [u8; 2] = [0xff, 0xd8];
    assert(png@ =~= png_signature());
    assert(gif7@ =~= seq![0x47u8, 0x49, 0x46, 0x38, 0x37, 0x61]);
    assert(gif9@ =~= seq![0x47u8, 0x49, 0x46, 0x38, 0x39, 0x61]);
    assert(jpeg@ =~= seq![0xffu8, 0xd8]);
    if bytes.len() >= 24 && bytes_eq(bytes, 0, &png) {
        let w = (bytes[16] as u32) * 16777216 + (bytes[17] as u32) * 65536 + (bytes[18] as u32)
            * 256 + (bytes[19] as u32);
        let h = (bytes[20] as u32) * 16777216 + (bytes[21] as u32) * 65536 + (bytes[22] as u32)
            * 256 + (bytes[23] as u32);
        return Some((w, h));
    }
    if bytes.len() >= 10 && (bytes_eq(bytes, 0, &gif7) || bytes_eq(bytes, 0, &gif9)) {
        let w = (bytes[6] as u32) + (bytes[7] as u32) * 256;
        let h = (bytes[8] as u32) + (bytes[9] as u32) * 256;
        return Some((w, h));
    }
    if bytes_eq(bytes, 0, &jpeg) {
        return jpeg_dimensions(bytes);
    }
    webp_dimensions(bytes)
}

// ---------------------------------------------------------------------------
// Placeholder captions
// ---------------------------------------------------------------------------

/// Whether the path names an SVG file: its extension is `svg` in any ASCII case.
pub open spec fn is_svg_path(path: Seq<char>) -> bool {
    match extension(path) {
        Some(e) => eq_ignore_ascii_case(e, "svg"@),
        None => false,
    }
}

/// The caption shown in place of an image that cannot be drawn: SVG files are
/// named as unsupported, others as unavailable, followed by the alternative
/// text when there is one.
pub open spec fn placeholder_text(path: Seq<char>, alt: Seq<char>) -> Seq<char> {
    (if is_svg_path(path) {
        "SVG no soportado"@
    } else {
        "Imagen no disponible"@
    }) + (if alt.len() > 0 {
        ": "@ + alt
    } else {
        Seq::<char>::empty()
    })
}

pub fn placeholder_label(path: &str, alt: &str) -> (r: String)
    ensures
        r@ == placeholder_text(path@, alt@),
{
    let svg = match file_extension(path) {
        Some(e) => eq_ignore_ascii_case_exec(&e, "svg"),
        None => false,
    };
    assert(svg == is_svg_path(path@));
    let mut r = String::new();
    if svg {
        push_str(&mut r, "SVG no soportado");
    } else {
        push_str(&mut r, "Imagen no disponible");
    }
    let ghost head = r@;
    if !alt.is_empty() {
        push_str(&mut r, ": ");
        push_str(&mut r, alt);
        assert(r@ =~= head + (": "@ + alt@));
    } else {
        assert(r@ =~= head + Seq::<char>::empty());
    }
    r
}

// ---------------------------------------------------------------------------
// Per-path cache
// ---------------------------------------------------------------------------

/// The first entry recorded for `key`.
pub open spec fn lookup(entries: Seq<(Seq<char>, Option<(u32, u32)>)>, key: Seq<char>) -> Option<
    Option<(u32, u32)>,
>
    decreases entries.len(),
{
    if entries.len() == 0 {
        None
    } else if entries[0].0 == key {
        Some(entries[0].1)
    } else {
        lookup(entries.skip(1), key)
    }
}

/// Image sizes already read, by path, so that a file is read once.
#[derive(Debug, Default)]
pub struct ImageMetadataCache {
    entries: Vec<(String, Option<(u32, u32)>)>,
}

impl View for ImageMetadataCache {
    type V = Seq<(Seq<char>, Option<(u32, u32)>)>;

    closed spec fn view(&self) -> Seq<(Seq<char>, Option<(u32, u32)>)> {
        self.entries@.map_values(|e: (String, Option<(u32, u32)>)| (e.0@, e.1))
    }
}

/// The size an image read gives: the header's size when the bytes could be
/// read, nothing otherwise.
pub open spec fn size_of_read(bytes: Option<Vec<u8>>) -> Option<(u32, u32)> {
    match bytes {
        Some(b) => raster_size(b@),
        None => None,
    }
}

pub proof fn lemma_lookup_push(
    entries: Seq<(Seq<char>, Option<(u32, u32)>)>,
    key: Seq<char>,
    value: Option<(u32, u32)>,
    other: Seq<char>,
)
    requires
        lookup(entries, key) is None,
    ensures
        lookup(entries.push((key, value)), key) == Some(value),
        other != key ==> lookup(entries.push((key, value)), other) == lookup(entries, other),
    decreases entries.len(),
{
    if entries.len() > 0 {
        assert(entries.push((key, value)).skip(1) =~= entries.skip(1).push((key, value)));
        lemma_lookup_push(entries.skip(1), key, value, other);
    } else {
        let e = Seq::<(Seq<char>, Option<(u32, u32)>)>::empty();
        assert(entries.push((key, value)).skip(1) =~= e);
        assert(lookup(e, other) is None);
    }
}

impl ImageMetadataCache {
    pub fn new() -> (c: Self)
        ensures
            c@ == Seq::<(Seq<char>, Option<(u32, u32)>)>::empty(),
    {
        let c = ImageMetadataCache { entries: Vec::new() };
        assert(c@ =~= Seq::<(Seq<char>, Option<(u32, u32)>)>::empty());
        c
    }

    /// The size of the image at `path`. A path seen before is answered from
    /// the cache without calling `read`; otherwise `read` gives the file's
    /// bytes (nothing when it cannot be read), their header is decoded, and
    /// the answer is recorded for the path.
    pub fn dimensions<F: FnOnce() -> Option<Vec<u8>>>(&mut self, path: &str, read: F) -> (r: Option<(u32, u32)>)
        requires
            call_requires(read, ()),
        ensures
            lookup(old(self)@, path@) matches Some(d) ==> r == d && final(self)@ == old(self)@,
            lookup(old(self)@, path@) is None ==> exists|bytes: Option<Vec<u8>>|
                #![trigger call_ensures(read, (), bytes)]
                call_ensures(read, (), bytes) && r == size_of_read(bytes),
            lookup(old(self)@, path@) is None ==> final(self)@ == old(self)@.push((path@, r)),
            lookup(final(self)@, path@) == Some(r),
    {
        let ghost entries = self@;
        let mut i: usize = 0;
        assert(entries.skip(0) =~= entries);
        while i < self.entries.len()
            invariant
                i <= self.entries.len(),
                self@ == entries,
                entries.len() == self.entries.len(),
                lookup(entries, path@) == lookup(entries.skip(i as int), path@),
            decreases self.entries.len() - i,
        {
            let ghost rest = entries.skip(i as int);
            assert(rest[0] == entries[i as int]);
            assert(entries[i as int] == (self.entries@[i as int].0@, self.entries@[i as int].1));
            if crate::text::str_eq(self.entries[i].0.as_str(), path) {
                return self.entries[i].1;
            }
            assert(rest.skip(1) =~= entries.skip(i + 1));
            i += 1;
        }
        let bytes = read();
        let d = match &bytes {
            Some(b) => raster_dimensions(b.as_slice()),
            None => None,
        };
        proof {
            lemma_lookup_push(entries, path@, d, path@);
        }
        let key = crate::text::string_from(&chars_of(path));
        self.entries.push((key, d));
        assert(self@ =~= entries.push((path@, d)));
        d
    }

    /// Forgets every recorded size.
    pub fn clear(&mut self)
        ensures
            final(self)@ == Seq::<(Seq<char>, Option<(u32, u32)>)>::empty(),
    {
        self.entries.clear();
        assert(self@ =~= Seq::<(Seq<char>, Option<(u32, u32)>)>::empty());
    }
}

} // verus!
