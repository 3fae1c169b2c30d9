//! Images in messages: how they are taken in, kept at hand and shown.
use std::sync::Arc;
use image::ImageFormat;
use vstd::prelude::*;
use crate::chat_view::Composer;
use crate::digits::{decimal, push_decimal};
use crate::message::{
    attachment_views, opt_text, share_data, AttachmentView, ChatAttachment,
};
use crate::text::{same_text, texts};

verus! {

// ---------------------------------------------------------------------------
// Sizes
// ---------------------------------------------------------------------------

/// The multiple of `unit` nearest to `n`, counted in units; of two equally near the even one.
pub open spec fn nearest(n: int, unit: int) -> int {
    let low = n / unit;
    let rest = n % unit;
    if 2 * rest > unit || (2 * rest == unit && low % 2 == 1) {
        low + 1
    } else {
        low
    }
}

fn round_nearest(n: u128, unit: u128) -> (r: u128)
    requires
        0 < unit <= 0x1_0000_0000_0000_0000,
        n <= 0xffff_ffff_ffff_ffff_ffff,
    ensures
        r == nearest(n as int, unit as int),
{
    let low: u128 = n / unit;
    let rest: u128 = n % unit;
    assert(low <= n) by (nonlinear_arith)
        requires
            low == n / unit,
            unit > 0,
    ;
    if 2 * rest > unit || (2 * rest == unit && low % 2 == 1) {
        low + 1
    } else {
        low
    }
}

/// The power of two by which a number is rounded so that 53 significant bits remain.
pub open spec fn grain(n: int) -> int {
    if n < 0x20_0000_0000_0000 {
        1
    } else {
        grain_from(n, 2)
    }
}

/// The least doubling of `unit` for which 53 bits hold the number.
pub open spec fn grain_from(n: int, unit: int) -> int
    decreases
            if 0 < unit && unit < n {
                n - unit
            } else {
                0
            },
{
    if unit <= 0 || unit >= n || n < unit * 0x20_0000_0000_0000 {
        unit
    } else {
        grain_from(n, 2 * unit)
    }
}

/// A number as a double holds it.
pub open spec fn as_double(n: int) -> int {
    nearest(n, grain(n)) * grain(n)
}

fn find_grain(n: u64) -> (g: u128)
    ensures
        g == grain(n as int),
        0 < g <= 4096,
{
    if n < 0x20_0000_0000_0000 {
        return 1;
    }
    let mut unit: u128 = 2;
    while (n as u128) >= unit * 0x20_0000_0000_0000
        invariant
            n >= 0x20_0000_0000_0000,
            2 <= unit <= 2048,
            grain(n as int) == grain_from(n as int, unit as int),
            unit == 2 || unit == 4 || unit == 8 || unit == 16 || unit == 32 || unit == 64 || unit
                == 128 || unit == 256 || unit == 512 || unit == 1024 || unit == 2048,
        decreases 4096 - unit,
    {
        assert(unit < n);
        unit = 2 * unit;
    }
    unit
}

fn to_double(n: u64) -> (d: u128)
    ensures
        d == as_double(n as int),
        d <= 0x1_0000_0000_0000_0000,
{
    let g = find_grain(n);
    let k = round_nearest(n as u128, g);
    proof {
        lemma_nearest_bound(n as int, g as int);
    }
    k * g
}

proof fn lemma_nearest_bound(n: int, unit: int)
    requires
        0 < unit <= 4096,
        0 <= n <= u64::MAX,
        unit == grain(n),
    ensures
        0 <= nearest(n, unit) * unit <= 0x1_0000_0000_0000_0000,
        0 <= nearest(n, unit) <= 0x1_0000_0000_0000_0000,
{
    let low = n / unit;
    let rest = n % unit;
    assert(n == unit * low + rest && 0 <= rest < unit) by (nonlinear_arith)
        requires
            low == n / unit,
            rest == n % unit,
            unit > 0,
    ;
    assert(0 <= low) by (nonlinear_arith)
        requires
            low == n / unit,
            unit > 0,
            n >= 0,
    ;
    assert(low * unit == unit * low) by (nonlinear_arith);
    assert((low + 1) * unit == unit * low + unit) by (nonlinear_arith);
    lemma_grain_divides(n, unit);
    let m = 0x1_0000_0000_0000_0000int / unit;
    assert(low + 1 <= m) by (nonlinear_arith)
        requires
            unit * low <= n,
            n < 0x1_0000_0000_0000_0000,
            unit * m == 0x1_0000_0000_0000_0000,
            unit > 0,
    ;
    assert((low + 1) * unit <= m * unit) by (nonlinear_arith)
        requires
            low + 1 <= m,
            unit > 0,
    ;
    assert(m * unit == unit * m) by (nonlinear_arith);
    assert(m <= 0x1_0000_0000_0000_0000) by (nonlinear_arith)
        requires
            unit * m == 0x1_0000_0000_0000_0000,
            unit >= 1,
            m >= 0,
    ;
}

proof fn lemma_grain_divides(n: int, unit: int)
    requires
        unit == grain(n),
        0 <= n <= u64::MAX,
    ensures
        unit * (0x1_0000_0000_0000_0000int / unit) == 0x1_0000_0000_0000_0000,
        0x1_0000_0000_0000_0000int / unit >= 0,
{
    reveal_with_fuel(grain_from, 14);
    if n >= 0x20_0000_0000_0000 {
        assert(unit == 2 || unit == 4 || unit == 8 || unit == 16 || unit == 32 || unit == 64
            || unit == 128 || unit == 256 || unit == 512 || unit == 1024 || unit == 2048);
    }
}

/// A size with one decimal.
pub open spec fn one_decimal(tenths: int) -> Seq<char> {
    decimal((tenths / 10) as nat) + "."@ + decimal((tenths % 10) as nat)
}

/// A size in words: in gigabytes and megabytes with one decimal, megabytes without it where it
/// is nearly whole, and in kilobytes else.
pub open spec fn size_text(bytes: int) -> Seq<char> {
    if bytes >= 0x4000_0000 {
        one_decimal(nearest(10 * as_double(bytes), 0x4000_0000)) + " GB"@
    } else if bytes >= 0x10_0000 {
        if 20 * (bytes % 0x10_0000) < 0x10_0000 {
            decimal(nearest(bytes, 0x10_0000) as nat) + " MB"@
        } else {
            one_decimal(nearest(10 * bytes, 0x10_0000)) + " MB"@
        }
    } else {
        decimal(nearest(bytes, 1024) as nat) + " KB"@
    }
}

fn push_tenths(s: &mut String, tenths: u128)
    requires
        tenths <= 0xffff_ffff_ffff_ffff,
    ensures
        final(s)@ == old(s)@ + one_decimal(tenths as int),
{
    push_decimal(s, (tenths / 10) as u64);
    s.append(".");
    push_decimal(s, (tenths % 10) as u64);
    assert(s@ =~= old(s)@ + one_decimal(tenths as int));
}

/// A size in words.
pub fn format_bytes(bytes: u64) -> (s: String)
    ensures
        s@ == size_text(bytes as int),
{
    let mut s: String = String::new();
    if bytes >= 0x4000_0000 {
        let tenths = round_nearest(10 * to_double(bytes), 0x4000_0000);
        push_tenths(&mut s, tenths);
        s.append(" GB");
    } else if bytes >= 0x10_0000 {
        if 20 * (bytes % 0x10_0000) < 0x10_0000 {
            push_decimal(&mut s, round_nearest(bytes as u128, 0x10_0000) as u64);
        } else {
            let tenths = round_nearest(10 * bytes as u128, 0x10_0000);
            push_tenths(&mut s, tenths);
        }
        s.append(" MB");
    } else {
        push_decimal(&mut s, round_nearest(bytes as u128, 1024) as u64);
        s.append(" KB");
    }
    assert(s@ =~= size_text(bytes as int));
    s
}

/// The limit for images in words.
pub fn image_limit_label(limit: Option<u64>) -> (s: String)
    ensures
        s@ == match limit {
            Some(bytes) => size_text(bytes as int) + " per image"@,
            None => "Unlimited"@,
        },
{
    match limit {
        Some(bytes) => {
            let mut s = format_bytes(bytes);
            s.append(" per image");
            s
        },
        None => "Unlimited".to_owned(),
    }
}

// ---------------------------------------------------------------------------
// Taking images in
// ---------------------------------------------------------------------------

/// A decoded image: its size, and its pixels with four bytes each.
pub struct Picture {
    pub width: u32,
    pub height: u32,
    pub pixels: Vec<u8>,
}

/// `image::load_from_memory`, its image converted by `to_rgba8`, or its error in words. Decoders
/// can be added to that crate while the program runs, so nothing is claimed of what comes back.
#[verifier::external_body]
pub(crate) fn decode_image(bytes: &[u8]) -> (r: Result<Picture, String>) {
    match image::load_from_memory(bytes) {
        Ok(decoded) => {
            let rgba = decoded.to_rgba8();
            let (width, height) = rgba.dimensions();
            Ok(Picture { width, height, pixels: rgba.into_raw() })
        },
        Err(error) => Err(error.to_string()),
    }
}

/// The formats of images that have a name of their own.
#[derive(Clone, Copy, Debug, PartialEq, Eq, Structural)]
pub enum ImageKind {
    Png,
    Jpeg,
    Gif,
    WebP,
    Bmp,
    Tiff,
    Ico,
    Pnm,
    Qoi,
    Tga,
    Other,
}

/// What `image::guess_format` makes of the first bytes of an image.
pub uninterp spec fn guessed_kind(bytes: Seq<u8>) -> Option<ImageKind>;

/// `image::guess_format`, which compares the first bytes with a fixed table. The contract claims
/// that the answer depends on the bytes alone.
#[verifier::external_body]
fn guess_kind(bytes: &[u8]) -> (r: Option<ImageKind>)
    ensures
        r == guessed_kind(bytes@),
{
    match image::guess_format(bytes) {
        Ok(ImageFormat::Png) => Some(ImageKind::Png),
        Ok(ImageFormat::Jpeg) => Some(ImageKind::Jpeg),
        Ok(ImageFormat::Gif) => Some(ImageKind::Gif),
        Ok(ImageFormat::WebP) => Some(ImageKind::WebP),
        Ok(ImageFormat::Bmp) => Some(ImageKind::Bmp),
        Ok(ImageFormat::Tiff) => Some(ImageKind::Tiff),
        Ok(ImageFormat::Ico) => Some(ImageKind::Ico),
        Ok(ImageFormat::Pnm) => Some(ImageKind::Pnm),
        Ok(ImageFormat::Qoi) => Some(ImageKind::Qoi),
        Ok(ImageFormat::Tga) => Some(ImageKind::Tga),
        Ok(_) => Some(ImageKind::Other),
        Err(_) => None,
    }
}

/// The media type of a format.
pub open spec fn media_text(kind: Option<ImageKind>) -> Seq<char> {
    match kind {
        Some(ImageKind::Png) => "image/png"@,
        Some(ImageKind::Jpeg) => "image/jpeg"@,
        Some(ImageKind::Gif) => "image/gif"@,
        Some(ImageKind::WebP) => "image/webp"@,
        Some(ImageKind::Bmp) => "image/bmp"@,
        Some(ImageKind::Tiff) => "image/tiff"@,
        Some(ImageKind::Ico) => "image/x-icon"@,
        Some(ImageKind::Pnm) => "image/x-portable-anymap"@,
        Some(ImageKind::Qoi) => "image/qoi"@,
        Some(ImageKind::Tga) => "image/x-tga"@,
        Some(ImageKind::Other) => "application/octet-stream"@,
        None => "application/octet-stream"@,
    }
}

/// The media type of a format.
pub fn image_media_type(kind: Option<ImageKind>) -> (s: &'static str)
    ensures
        s@ == media_text(kind),
{
    match kind {
        Some(ImageKind::Png) => "image/png",
        Some(ImageKind::Jpeg) => "image/jpeg",
        Some(ImageKind::Gif) => "image/gif",
        Some(ImageKind::WebP) => "image/webp",
        Some(ImageKind::Bmp) => "image/bmp",
        Some(ImageKind::Tiff) => "image/tiff",
        Some(ImageKind::Ico) => "image/x-icon",
        Some(ImageKind::Pnm) => "image/x-portable-anymap",
        Some(ImageKind::Qoi) => "image/qoi",
        Some(ImageKind::Tga) => "image/x-tga",
        Some(ImageKind::Other) => "application/octet-stream",
        None => "application/octet-stream",
    }
}

/// Whether one of the images has this hash.
pub open spec fn has_hash(drafts: Seq<AttachmentView>, hash: Seq<char>) -> bool {
    exists|i: int| 0 <= i < drafts.len() && (#[trigger] drafts[i]).hash == hash
}

/// An image that was taken in.
pub open spec fn taken_image(
    name: Seq<char>,
    media: Seq<char>,
    width: u32,
    height: u32,
    hash: Seq<char>,
    bytes: Vec<u8>,
) -> AttachmentView {
    AttachmentView {
        id: hash,
        name,
        media_type: media,
        byte_len: bytes@.len() as int,
        width: width as int,
        height: height as int,
        hash,
        data: Some(Arc::new(bytes)),
    }
}

/// What decoding an image gave.
pub open spec fn decoded_view(decoded: Result<(u32, u32), String>) -> Result<
    (u32, u32),
    Seq<char>,
> {
    match decoded {
        Ok(size) => Ok(size),
        Err(problem) => Err(problem@),
    }
}

/// Whether an image was taken in or refused as it should be, for what decoding it gave.
pub open spec fn image_taken(
    before: Composer,
    after: Composer,
    name: Seq<char>,
    bytes: Vec<u8>,
    hash: Seq<char>,
    decoded: Result<(u32, u32), Seq<char>>,
) -> bool {
    &&& after.text == before.text
    &&& match decoded {
        Err(problem) => attachment_views(after.drafts@) == attachment_views(before.drafts@)
            && opt_text(after.error) == Some(name + " is not a supported image: "@ + problem),
        Ok((width, height)) => after.error == before.error && attachment_views(after.drafts@)
            == if has_hash(attachment_views(before.drafts@), hash) {
            attachment_views(before.drafts@)
        } else {
            attachment_views(before.drafts@).push(
                taken_image(name, media_text(guessed_kind(bytes@)), width, height, hash, bytes),
            )
        },
    }
}

impl Composer {
    /// Takes in an image of which decoding gave this: what is none is refused with a word, and
    /// one that is there already is not taken twice.
    pub fn take_image(
        &mut self,
        name: String,
        bytes: Vec<u8>,
        hash: String,
        decoded: Result<(u32, u32), String>,
    )
        ensures
            image_taken(
                *old(self),
                *final(self),
                name@,
                bytes,
                hash@,
                decoded_view(decoded),
            ),
    {
        let ghost before = attachment_views(self.drafts@);
        let (width, height) = match decoded {
            Ok(size) => size,
            Err(problem) => {
                let mut s: String = name;
                s.append(" is not a supported image: ");
                s.append(problem.as_str());
                self.error = Some(s);
                return;
            },
        };
        let mut i: usize = 0;
        while i < self.drafts.len()
            invariant
                0 <= i <= self.drafts@.len(),
                before == attachment_views(self.drafts@),
                *self == *old(self),
                decoded is Ok,
                forall|j: int| 0 <= j < i ==> (#[trigger] before[j]).hash != hash@,
            decreases self.drafts@.len() - i,
        {
            assert(before[i as int] == self.drafts@[i as int]@);
            if same_text(self.drafts[i].hash.as_str(), hash.as_str()) {
                return;
            }
            i += 1;
        }
        let media = image_media_type(guess_kind(bytes.as_slice()));
        let byte_len: u64 = bytes.len() as u64;
        let taken = ChatAttachment {
            id: hash.clone(),
            name,
            media_type: media.to_owned(),
            byte_len,
            width,
            height,
            hash,
            data: Some(Arc::new(bytes)),
        };
        let ghost view = taken@;
        self.drafts.push(taken);
        assert(attachment_views(self.drafts@) =~= before.push(view));
    }

    /// Takes in the bytes of an image; `hash` names them.
    pub fn add_chat_image_bytes(&mut self, name: String, bytes: Vec<u8>, hash: String)
        ensures
            exists|decoded: Result<(u32, u32), Seq<char>>| #[trigger]
                image_taken(*old(self), *final(self), name@, bytes, hash@, decoded),
    {
        let decoded: Result<(u32, u32), String> = match decode_image(bytes.as_slice()) {
            Ok(picture) => Ok((picture.width, picture.height)),
            Err(problem) => Err(problem),
        };
        let ghost seen = decoded_view(decoded);
        self.take_image(name, bytes, hash, decoded);
        assert(image_taken(*old(self), *self, name@, bytes, hash@, seen));
    }

    /// Says that a file could not be read.
    pub fn image_unreadable(&mut self, path: &str, problem: &str)
        ensures
            opt_text(final(self).error) == Some("Could not read "@ + path@ + ": "@ + problem@),
            final(self).text == old(self).text,
            final(self).drafts == old(self).drafts,
    {
        let mut s: String = "Could not read ".to_owned();
        s.append(path);
        s.append(": ");
        s.append(problem);
        self.error = Some(s);
    }
}

// ---------------------------------------------------------------------------
// Images at hand
// ---------------------------------------------------------------------------

/// How many images are kept at hand.
pub const MAX_ATTACHMENT_TEXTURES: usize = 128;

/// How many bytes of files are kept at hand.
pub const MAX_CACHED_ATTACHMENT_BYTES: u128 = 67_108_864;

/// How many bytes of pixels are kept at hand.
pub const MAX_CACHED_TEXTURE_BYTES: u128 = 268_435_456;

/// An image at hand. Its pixels are on the screen's side; its file may have been dropped.
pub struct CacheEntry {
    pub id: String,
    pub last_used: u64,
    pub data: Option<Arc<Vec<u8>>>,
    pub texture_bytes: usize,
}

/// The contents of a `CacheEntry`.
pub struct EntryView {
    pub id: Seq<char>,
    pub last_used: u64,
    pub data: Option<Arc<Vec<u8>>>,
    pub texture_bytes: usize,
}

impl View for CacheEntry {
    type V = EntryView;

    open spec fn view(&self) -> EntryView {
        EntryView {
            id: self.id@,
            last_used: self.last_used,
            data: self.data,
            texture_bytes: self.texture_bytes,
        }
    }
}

/// The contents of a list of images at hand.
pub open spec fn entry_views(v: Seq<CacheEntry>) -> Seq<EntryView> {
    Seq::new(v.len(), |i: int| v[i]@)
}

/// The bytes of an image's file that are kept.
pub open spec fn data_len(entry: EntryView) -> nat {
    match entry.data {
        Some(data) => data@.len(),
        None => 0,
    }
}

/// The bytes of files that are kept.
pub open spec fn data_total(entries: Seq<EntryView>) -> nat
    decreases entries.len(),
{
    if entries.len() == 0 {
        0
    } else {
        data_total(entries.drop_last()) + data_len(entries.last())
    }
}

/// The bytes of pixels that are kept.
pub open spec fn texture_total(entries: Seq<EntryView>) -> nat
    decreases entries.len(),
{
    if entries.len() == 0 {
        0
    } else {
        texture_total(entries.drop_last()) + entries.last().texture_bytes as nat
    }
}

/// Whether an image counts: any one, or only one whose file is kept.
pub open spec fn counts(entry: EntryView, with_data: bool) -> bool {
    !with_data || entry.data is Some
}

/// The place of the image that was used longest ago among those that count; the first of those
/// used at the same time.
pub open spec fn oldest(entries: Seq<EntryView>, with_data: bool) -> Option<int>
    decreases entries.len(),
{
    if entries.len() == 0 {
        None
    } else {
        let before = oldest(entries.drop_last(), with_data);
        if counts(entries.last(), with_data) && (before is None || entries.last().last_used
            < entries[before->0].last_used) {
            Some(entries.len() - 1)
        } else {
            before
        }
    }
}

/// Whether there are too many images, or too many pixels.
pub open spec fn too_many(entries: Seq<EntryView>) -> bool {
    entries.len() > MAX_ATTACHMENT_TEXTURES || texture_total(entries) > MAX_CACHED_TEXTURE_BYTES
}

/// The images that stay: those used longest ago leave until the rest fits.
pub open spec fn shrunk(entries: Seq<EntryView>) -> Seq<EntryView>
    decreases entries.len(),
{
    if too_many(entries) && oldest(entries, false) is Some && 0 <= oldest(entries, false)->0
        < entries.len() {
        shrunk(entries.remove(oldest(entries, false)->0))
    } else {
        entries
    }
}

/// How many images have their file kept.
pub open spec fn files(entries: Seq<EntryView>) -> nat
    decreases entries.len(),
{
    if entries.len() == 0 {
        0
    } else {
        files(entries.drop_last()) + if entries.last().data is Some {
            1nat
        } else {
            0nat
        }
    }
}

/// Without one image's file.
pub open spec fn without_file(entries: Seq<EntryView>, i: int) -> Seq<EntryView> {
    entries.update(i, EntryView { data: None, ..entries[i] })
}

/// The images with the files that stay: those used longest ago leave until the rest fits.
pub open spec fn lightened(entries: Seq<EntryView>, fuel: nat) -> Seq<EntryView>
    decreases fuel,
{
    if fuel > 0 && data_total(entries) > MAX_CACHED_ATTACHMENT_BYTES && oldest(entries, true)
        is Some {
        lightened(without_file(entries, oldest(entries, true)->0), (fuel - 1) as nat)
    } else {
        entries
    }
}

/// The place of an image, or the count of images.
pub open spec fn entry_place(entries: Seq<EntryView>, id: Seq<char>) -> nat
    decreases entries.len(),
{
    if entries.len() == 0 || entries[0].id == id {
        0
    } else {
        1 + entry_place(entries.drop_first(), id)
    }
}

/// With an image put in, or its file put in anew.
pub open spec fn with_image(
    entries: Seq<EntryView>,
    id: Seq<char>,
    data: Arc<Vec<u8>>,
    now: u64,
    texture_bytes: usize,
) -> Seq<EntryView> {
    let at = entry_place(entries, id) as int;
    if at < entries.len() {
        entries.update(at, EntryView { data: Some(data), last_used: now, ..entries[at] })
    } else {
        entries.push(EntryView { id, last_used: now, data: Some(data), texture_bytes })
    }
}

/// What stays of the images.
pub open spec fn trimmed_cache(entries: Seq<EntryView>) -> Seq<EntryView> {
    let kept = shrunk(entries);
    lightened(kept, files(kept))
}

/// The images at hand.
pub struct AttachmentTextureCache {
    pub entries: Vec<CacheEntry>,
    pub clock: u64,
    pub data_bytes: u128,
    pub texture_bytes: u128,
}

/// The reading of the cache's clock after another.
pub open spec fn tick(clock: u64) -> u64 {
    if clock == u64::MAX {
        0
    } else {
        (clock + 1) as u64
    }
}

proof fn lemma_totals_push(entries: Seq<EntryView>, e: EntryView)
    ensures
        data_total(entries.push(e)) == data_total(entries) + data_len(e),
        texture_total(entries.push(e)) == texture_total(entries) + e.texture_bytes,
{
    assert(entries.push(e).drop_last() =~= entries);
}

proof fn lemma_totals_update(entries: Seq<EntryView>, i: int, e: EntryView)
    requires
        0 <= i < entries.len(),
        e.texture_bytes == entries[i].texture_bytes,
    ensures
        data_total(entries.update(i, e)) == data_total(entries) - data_len(entries[i]) + data_len(
            e,
        ),
        texture_total(entries.update(i, e)) == texture_total(entries),
        files(entries.update(i, e)) == files(entries) - (if entries[i].data is Some {
            1int
        } else {
            0int
        }) + (if e.data is Some {
            1int
        } else {
            0int
        }),
    decreases entries.len(),
{
    let after = entries.update(i, e);
    let rest = entries.drop_last();
    if i == entries.len() - 1 {
        assert(after.drop_last() =~= rest);
    } else {
        assert(after.drop_last() =~= rest.update(i, e));
        lemma_totals_update(rest, i, e);
    }
}

proof fn lemma_totals_remove(entries: Seq<EntryView>, i: int)
    requires
        0 <= i < entries.len(),
    ensures
        data_total(entries.remove(i)) == data_total(entries) - data_len(entries[i]),
        texture_total(entries.remove(i)) == texture_total(entries) - entries[i].texture_bytes,
    decreases entries.len(),
{
    let after = entries.remove(i);
    let rest = entries.drop_last();
    if i == entries.len() - 1 {
        assert(after =~= rest);
    } else {
        assert(after.drop_last() =~= rest.remove(i));
        lemma_totals_remove(rest, i);
    }
}

proof fn lemma_oldest(entries: Seq<EntryView>, with_data: bool)
    ensures
        match oldest(entries, with_data) {
            Some(i) => 0 <= i < entries.len() && counts(entries[i], with_data) && forall|j: int|
                0 <= j < entries.len() && counts(#[trigger] entries[j], with_data)
                    ==> entries[i].last_used <= entries[j].last_used,
            None => forall|j: int|
                0 <= j < entries.len() ==> !counts(#[trigger] entries[j], with_data),
        },
    decreases entries.len(),
{
    if entries.len() > 0 {
        let rest = entries.drop_last();
        lemma_oldest(rest, with_data);
        match oldest(entries, with_data) {
            Some(i) => {
                assert forall|j: int|
                    0 <= j < entries.len() && counts(
                        #[trigger] entries[j],
                        with_data,
                    ) implies entries[i].last_used <= entries[j].last_used by {
                    if j < rest.len() {
                        assert(rest[j] == entries[j]);
                    }
                }
            },
            None => {
                assert forall|j: int| 0 <= j < entries.len() implies !counts(
                    #[trigger] entries[j],
                    with_data,
                ) by {
                    if j < rest.len() {
                        assert(rest[j] == entries[j]);
                    }
                }
            },
        }
    }
}

proof fn lemma_no_files(entries: Seq<EntryView>)
    ensures
        files(entries) == 0 ==> data_total(entries) == 0,
        oldest(entries, true) is None ==> data_total(entries) == 0 && files(entries) == 0,
    decreases entries.len(),
{
    if entries.len() > 0 {
        lemma_no_files(entries.drop_last());
    }
}

proof fn lemma_entry_place(entries: Seq<EntryView>, id: Seq<char>, n: int)
    requires
        0 <= n <= entries.len(),
        forall|j: int| 0 <= j < n ==> (#[trigger] entries[j]).id != id,
        n < entries.len() ==> entries[n].id == id,
    ensures
        entry_place(entries, id) == n,
    decreases n,
{
    if n > 0 {
        let rest = entries.drop_first();
        assert(entries[0].id != id);
        assert forall|j: int| 0 <= j < n - 1 implies (#[trigger] rest[j]).id != id by {
            assert(rest[j] == entries[j + 1]);
        }
        if n < entries.len() {
            assert(rest[n - 1] == entries[n]);
        }
        lemma_entry_place(rest, id, n - 1);
    }
}

/// The contents of a list of strings that may be missing.
pub open spec fn opt_texts(list: Option<Vec<String>>) -> Option<Seq<Seq<char>>> {
    match list {
        Some(list) => Some(texts(list@)),
        None => None,
    }
}

/// What putting an image in does, for so many bytes of decoded pixels: `gone` are the images that
/// left for it, and nothing where it was refused.
pub open spec fn data_placed(
    before: AttachmentTextureCache,
    after: AttachmentTextureCache,
    id: Seq<char>,
    data: Arc<Vec<u8>>,
    decoded: Option<usize>,
    gone: Option<Seq<Seq<char>>>,
) -> bool {
    let entries = entry_views(before.entries@);
    let known = entry_place(entries, id) < entries.len();
    let refused = !known && (decoded is None || decoded->0 > MAX_CACHED_TEXTURE_BYTES);
    let all = with_image(
        entries,
        id,
        data,
        tick(before.clock),
        if decoded is Some {
            decoded->0
        } else {
            0
        },
    );
    &&& after.clock == tick(before.clock)
    &&& gone is None <==> refused
    &&& entry_views(after.entries@) == if refused {
        entries
    } else {
        trimmed_cache(all)
    }
    &&& gone is Some ==> gone->0 == left_for(all)
}

/// What an image that was put in asks for.
pub struct Inserted {
    /// The pixels to be kept, where the image is new.
    pub picture: Option<Picture>,
    /// The images that left.
    pub gone: Vec<String>,
}

/// The bytes of the pixels of an image that may be missing.
pub open spec fn pixel_bytes(picture: Option<Picture>) -> Option<usize> {
    match picture {
        Some(picture) => Some(picture.pixels@.len() as usize),
        None => None,
    }
}

impl AttachmentTextureCache {
    /// The counts are those of the images, and all limits are kept.
    pub open spec fn wf(self) -> bool {
        &&& self.data_bytes == data_total(entry_views(self.entries@))
        &&& self.texture_bytes == texture_total(entry_views(self.entries@))
        &&& self.entries@.len() <= MAX_ATTACHMENT_TEXTURES
        &&& self.texture_bytes <= MAX_CACHED_TEXTURE_BYTES
        &&& self.data_bytes <= MAX_CACHED_ATTACHMENT_BYTES
    }

    /// No images.
    pub fn new() -> (c: AttachmentTextureCache)
        ensures
            c.wf(),
            c.entries@.len() == 0,
            c.clock == 0,
    {
        AttachmentTextureCache { entries: Vec::new(), clock: 0, data_bytes: 0, texture_bytes: 0 }
    }

    fn place(&self, id: &str) -> (i: usize)
        ensures
            i == entry_place(entry_views(self.entries@), id@),
            i <= self.entries@.len(),
            i < self.entries@.len() ==> self.entries@[i as int].id@ == id@,
    {
        let ghost all = entry_views(self.entries@);
        let mut i: usize = 0;
        while i < self.entries.len() && !same_text(self.entries[i].id.as_str(), id)
            invariant
                0 <= i <= self.entries@.len(),
                all == entry_views(self.entries@),
                forall|j: int| 0 <= j < i ==> (#[trigger] all[j]).id != id@,
            decreases self.entries@.len() - i,
        {
            assert(all[i as int].id != id@);
            i += 1;
        }
        proof {
            lemma_entry_place(all, id@, i as int);
        }
        i
    }

    fn find_oldest(&self, with_data: bool) -> (r: Option<usize>)
        ensures
            match r {
                Some(i) => oldest(entry_views(self.entries@), with_data) == Some(i as int) && i
                    < self.entries@.len(),
                None => oldest(entry_views(self.entries@), with_data) is None,
            },
    {
        let ghost all = entry_views(self.entries@);
        let mut found: Option<usize> = None;
        let mut i: usize = 0;
        assert(all.take(0) =~= Seq::empty());
        while i < self.entries.len()
            invariant
                0 <= i <= self.entries@.len(),
                all == entry_views(self.entries@),
                match found {
                    Some(k) => k < i && oldest(all.take(i as int), with_data) == Some(k as int),
                    None => oldest(all.take(i as int), with_data) is None,
                },
            decreases self.entries@.len() - i,
        {
            assert(all.take(i as int + 1).drop_last() =~= all.take(i as int));
            if !with_data || self.entries[i].data.is_some() {
                let older = match found {
                    Some(k) => self.entries[i].last_used < self.entries[k].last_used,
                    None => true,
                };
                if older {
                    found = Some(i);
                }
            }
            i += 1;
        }
        assert(all.take(all.len() as int) =~= all);
        found
    }

    /// Notes that an image is used; says whether it is at hand.
    pub fn touch(&mut self, id: &str) -> (there: bool)
        requires
            old(self).wf(),
        ensures
            final(self).wf(),
            final(self).clock == tick(old(self).clock),
            ({
                let before = entry_views(old(self).entries@);
                let at = entry_place(before, id@) as int;
                &&& there == (at < before.len())
                &&& entry_views(final(self).entries@) == if there {
                    before.update(
                        at,
                        EntryView { last_used: tick(old(self).clock), ..before[at] },
                    )
                } else {
                    before
                }
            }),
    {
        let ghost before = entry_views(self.entries@);
        self.clock = if self.clock == u64::MAX {
            0
        } else {
            self.clock + 1
        };
        let at = self.place(id);
        if at >= self.entries.len() {
            return false;
        }
        let entry = CacheEntry {
            id: self.entries[at].id.clone(),
            last_used: self.clock,
            data: share_data(&self.entries[at].data),
            texture_bytes: self.entries[at].texture_bytes,
        };
        proof {
            lemma_totals_update(before, at as int, entry@);
        }
        self.entries.set(at, entry);
        assert(entry_views(self.entries@) =~= before.update(
            at as int,
            EntryView { last_used: self.clock, ..before[at as int] },
        ));
        true
    }

    /// The file of an image, where it is kept.
    pub fn data(&self, id: &str) -> (r: Option<Arc<Vec<u8>>>)
        ensures
            r == ({
                let all = entry_views(self.entries@);
                let at = entry_place(all, id@) as int;
                if at < all.len() {
                    all[at].data
                } else {
                    None
                }
            }),
    {
        let at = self.place(id);
        if at < self.entries.len() {
            share_data(&self.entries[at].data)
        } else {
            None
        }
    }

    /// Puts an image in, or its file anew, of which so many bytes of pixels were decoded. Gives
    /// the images that left for it, so that their pixels can be dropped; nothing where the image
    /// could not be decoded or is too large to be kept.
    pub fn place_data(
        &mut self,
        id: &str,
        data: Arc<Vec<u8>>,
        decoded: Option<usize>,
    ) -> (r: Option<Vec<String>>)
        requires
            old(self).wf(),
        ensures
            final(self).wf(),
            data_placed(*old(self), *final(self), id@, data, decoded, opt_texts(r)),
    {
        let ghost before = entry_views(self.entries@);
        self.clock = if self.clock == u64::MAX {
            0
        } else {
            self.clock + 1
        };
        let now: u64 = self.clock;
        let at = self.place(id);
        let len: u128 = data.len() as u128;
        let ghost given = data;
        if at < self.entries.len() {
            let was: u128 = match &self.entries[at].data {
                Some(old_data) => old_data.len() as u128,
                None => 0,
            };
            let entry = CacheEntry {
                id: self.entries[at].id.clone(),
                last_used: now,
                data: Some(data),
                texture_bytes: self.entries[at].texture_bytes,
            };
            proof {
                lemma_totals_update(before, at as int, entry@);
                lemma_data_part(before, at as int);
            }
            self.entries.set(at, entry);
            self.data_bytes = self.data_bytes - was + len;
            assert(entry_views(self.entries@) =~= with_image(before, id@, given, now, 0));
            assert(entry_views(self.entries@) == with_image(
                before,
                id@,
                given,
                now,
                if decoded is Some {
                    decoded->0
                } else {
                    0
                },
            ));
        } else {
            let texture_bytes: usize = match decoded {
                Some(texture_bytes) => texture_bytes,
                None => {
                    return None;
                },
            };
            if texture_bytes as u128 > MAX_CACHED_TEXTURE_BYTES {
                return None;
            }
            let entry = CacheEntry {
                id: id.to_owned(),
                last_used: now,
                data: Some(data),
                texture_bytes,
            };
            proof {
                lemma_totals_push(before, entry@);
            }
            self.entries.push(entry);
            self.data_bytes = self.data_bytes + len;
            self.texture_bytes = self.texture_bytes + texture_bytes as u128;
            assert(entry_views(self.entries@) =~= with_image(before, id@, given, now, texture_bytes));
        }
        let left = self.shrink();
        self.lighten();
        Some(left)
    }

    /// Puts an image in, or its file anew. Only an image that is not there is decoded; nothing
    /// comes back where that fails or it is too large to be kept.
    pub fn insert_data(&mut self, id: &str, data: Arc<Vec<u8>>) -> (r: Option<Inserted>)
        requires
            old(self).wf(),
        ensures
            final(self).wf(),
            match r {
                Some(inserted) => {
                    let entries = entry_views(old(self).entries@);
                    &&& data_placed(
                        *old(self),
                        *final(self),
                        id@,
                        data,
                        pixel_bytes(inserted.picture),
                        Some(texts(inserted.gone@)),
                    )
                    &&& inserted.picture is None <==> entry_place(entries, id@) < entries.len()
                    &&& inserted.picture is Some ==> inserted.picture->0.pixels@.len()
                        <= MAX_CACHED_TEXTURE_BYTES
                },
                None => exists|decoded: Option<usize>| #[trigger]
                    data_placed(*old(self), *final(self), id@, data, decoded, None),
            },
    {
        let ghost before = *self;
        let ghost given = data;
        let known = self.place(id) < self.entries.len();
        let picture: Option<Picture> = if known {
            None
        } else {
            match decode_image(data.as_slice()) {
                Ok(picture) => Some(picture),
                Err(_) => None,
            }
        };
        let size: Option<usize> = match &picture {
            Some(picture) => Some(picture.pixels.len()),
            None => None,
        };
        match self.place_data(id, data, size) {
            Some(gone) => Some(Inserted { picture, gone }),
            None => {
                assert(data_placed(before, *self, id@, given, size, None));
                None
            },
        }
    }

    /// Makes an image ready to be shown: notes that it is used where it is there, else puts it in
    /// from the bytes that came with it, if any. Says whether it can be shown.
    pub fn get_or_insert(&mut self, id: &str, data: &Option<Arc<Vec<u8>>>) -> (r: (
        bool,
        Option<Inserted>,
    ))
        requires
            old(self).wf(),
        ensures
            final(self).wf(),
            ({
                let entries = entry_views(old(self).entries@);
                let at = entry_place(entries, id@) as int;
                if at < entries.len() {
                    &&& r.0
                    &&& r.1 is None
                    &&& final(self).clock == tick(old(self).clock)
                    &&& entry_views(final(self).entries@) == entries.update(
                        at,
                        EntryView { last_used: tick(old(self).clock), ..entries[at] },
                    )
                } else if *data is None {
                    &&& !r.0
                    &&& r.1 is None
                    &&& final(self).clock == tick(old(self).clock)
                    &&& entry_views(final(self).entries@) == entries
                } else {
                    &&& r.0 == r.1 is Some
                    &&& final(self).clock == tick(tick(old(self).clock))
                    &&& r.1 is None ==> entry_views(final(self).entries@) == entries
                    &&& r.1 is Some ==> r.1->0.picture is Some && entry_views(final(self).entries@)
                        == trimmed_cache(
                        with_image(
                            entries,
                            id@,
                            data->0,
                            tick(tick(old(self).clock)),
                            r.1->0.picture->0.pixels@.len() as usize,
                        ),
                    ) && texts(r.1->0.gone@) == left_for(
                        with_image(
                            entries,
                            id@,
                            data->0,
                            tick(tick(old(self).clock)),
                            r.1->0.picture->0.pixels@.len() as usize,
                        ),
                    ) && r.1->0.picture->0.pixels@.len() <= MAX_CACHED_TEXTURE_BYTES
                }
            }),
    {
        if self.touch(id) {
            return (true, None);
        }
        match share_data(data) {
            Some(data) => {
                let inserted = self.insert_data(id, data);
                (inserted.is_some(), inserted)
            },
            None => (false, None),
        }
    }

    fn shrink(&mut self) -> (left: Vec<String>)
        requires
            old(self).data_bytes == data_total(entry_views(old(self).entries@)),
            old(self).texture_bytes == texture_total(entry_views(old(self).entries@)),
        ensures
            entry_views(final(self).entries@) == shrunk(entry_views(old(self).entries@)),
            final(self).data_bytes == data_total(entry_views(final(self).entries@)),
            final(self).texture_bytes == texture_total(entry_views(final(self).entries@)),
            final(self).entries@.len() <= MAX_ATTACHMENT_TEXTURES,
            final(self).texture_bytes <= MAX_CACHED_TEXTURE_BYTES,
            final(self).clock == old(self).clock,
            texts(left@) == left_for(entry_views(old(self).entries@)),
    {
        let ghost start = entry_views(self.entries@);
        let mut left: Vec<String> = Vec::new();
        assert(texts(left@) + left_for(start) =~= left_for(start));
        while self.entries.len() > MAX_ATTACHMENT_TEXTURES || self.texture_bytes
            > MAX_CACHED_TEXTURE_BYTES
            invariant
                self.data_bytes == data_total(entry_views(self.entries@)),
                self.texture_bytes == texture_total(entry_views(self.entries@)),
                shrunk(start) == shrunk(entry_views(self.entries@)),
                self.clock == old(self).clock,
                texts(left@) + left_for(entry_views(self.entries@)) == left_for(start),
            decreases self.entries@.len(),
        {
            let ghost now = entry_views(self.entries@);
            proof {
                lemma_oldest(now, false);
                if now.len() == 0 {
                    assert(texture_total(now) == 0);
                } else {
                    assert(counts(now[0], false));
                }
            }
            match self.find_oldest(false) {
                Some(i) => {
                    let entry = self.entries.remove(i);
                    let was: u128 = match &entry.data {
                        Some(data) => data.len() as u128,
                        None => 0,
                    };
                    proof {
                        lemma_totals_remove(now, i as int);
                        lemma_data_part(now, i as int);
                        assert(entry_views(self.entries@) =~= now.remove(i as int));
                        assert(entry@ == now[i as int]);
                    }
                    self.data_bytes = self.data_bytes - was;
                    self.texture_bytes = self.texture_bytes - entry.texture_bytes as u128;
                    let ghost sofar = texts(left@);
                    let ghost gone = entry.id@;
                    left.push(entry.id);
                    proof {
                        assert(texts(left@) =~= sofar.push(gone));
                        assert(left_for(now) == seq![gone] + left_for(now.remove(i as int)));
                        assert(texts(left@) + left_for(now.remove(i as int)) =~= sofar + (seq![gone]
                            + left_for(now.remove(i as int))));
                    }
                },
                None => {},
            }
        }
        assert(left_for(entry_views(self.entries@)) =~= Seq::empty());
        assert(texts(left@) =~= texts(left@) + left_for(entry_views(self.entries@)));
        left
    }

    fn lighten(&mut self)
        requires
            old(self).data_bytes == data_total(entry_views(old(self).entries@)),
            old(self).texture_bytes == texture_total(entry_views(old(self).entries@)),
            old(self).entries@.len() <= MAX_ATTACHMENT_TEXTURES,
            old(self).texture_bytes <= MAX_CACHED_TEXTURE_BYTES,
        ensures
            final(self).wf(),
            final(self).clock == old(self).clock,
            ({
                let start = entry_views(old(self).entries@);
                entry_views(final(self).entries@) == lightened(start, files(start))
            }),
    {
        let ghost start = entry_views(self.entries@);
        while self.data_bytes > MAX_CACHED_ATTACHMENT_BYTES
            invariant
                self.data_bytes == data_total(entry_views(self.entries@)),
                self.texture_bytes == texture_total(entry_views(self.entries@)),
                self.entries@.len() <= MAX_ATTACHMENT_TEXTURES,
                self.texture_bytes <= MAX_CACHED_TEXTURE_BYTES,
                self.clock == old(self).clock,
                lightened(start, files(start)) == lightened(
                    entry_views(self.entries@),
                    files(entry_views(self.entries@)),
                ),
            decreases files(entry_views(self.entries@)),
        {
            let ghost now = entry_views(self.entries@);
            proof {
                lemma_oldest(now, true);
                lemma_no_files(now);
            }
            match self.find_oldest(true) {
                Some(i) => {
                    let was: u128 = match &self.entries[i].data {
                        Some(data) => data.len() as u128,
                        None => 0,
                    };
                    let entry = CacheEntry {
                        id: self.entries[i].id.clone(),
                        last_used: self.entries[i].last_used,
                        data: None,
                        texture_bytes: self.entries[i].texture_bytes,
                    };
                    proof {
                        lemma_totals_update(now, i as int, entry@);
                        lemma_data_part(now, i as int);
                    }
                    self.entries.set(i, entry);
                    self.data_bytes = self.data_bytes - was;
                    assert(entry_views(self.entries@) =~= without_file(now, i as int));
                },
                None => {},
            }
        }
        proof {
            let end = entry_views(self.entries@);
            assert(lightened(end, files(end)) == end);
        }
    }
}

/// The images that leave so that the rest fits, in this order.
pub open spec fn left_for(entries: Seq<EntryView>) -> Seq<Seq<char>>
    decreases entries.len(),
{
    if too_many(entries) && oldest(entries, false) is Some && 0 <= oldest(entries, false)->0
        < entries.len() {
        seq![entries[oldest(entries, false)->0].id] + left_for(
            entries.remove(oldest(entries, false)->0),
        )
    } else {
        Seq::empty()
    }
}

proof fn lemma_data_part(entries: Seq<EntryView>, i: int)
    requires
        0 <= i < entries.len(),
    ensures
        data_len(entries[i]) <= data_total(entries),
        entries[i].texture_bytes <= texture_total(entries),
    decreases entries.len(),
{
    if i < entries.len() - 1 {
        lemma_data_part(entries.drop_last(), i);
    }
}

/// The image that was put in last is not the one that leaves, as long as it is the one used
/// last and is not too large by itself.
pub proof fn law_newest_image_stays(entries: Seq<EntryView>, k: int)
    requires
        0 <= k < entries.len(),
        entries[k].texture_bytes <= MAX_CACHED_TEXTURE_BYTES,
        forall|j: int|
            0 <= j < entries.len() && j != k ==> (#[trigger] entries[j]).last_used
                < entries[k].last_used,
    ensures
        shrunk(entries).contains(entries[k]),
    decreases entries.len(),
{
    lemma_oldest(entries, false);
    if too_many(entries) {
        assert(counts(entries[k], false));
        let i = oldest(entries, false)->0;
        if entries.len() == 1 {
            assert(entries.drop_last() =~= Seq::empty());
            assert(texture_total(entries.drop_last()) == 0);
        }
        if i == k {
            let other = if k == 0 {
                1int
            } else {
                0int
            };
            assert(counts(entries[other], false));
            assert(entries[other].last_used < entries[k].last_used);
        }
        let rest = entries.remove(i);
        let at = if i < k {
            k - 1
        } else {
            k
        };
        assert(rest[at] == entries[k]);
        assert forall|j: int| 0 <= j < rest.len() && j != at implies (#[trigger] rest[j]).last_used
            < rest[at].last_used by {
            let from = if j < i {
                j
            } else {
                j + 1
            };
            assert(rest[j] == entries[from]);
        }
        law_newest_image_stays(rest, at);
    }
}

// ---------------------------------------------------------------------------
// Showing images
// ---------------------------------------------------------------------------

/// How an image in a message is shown.
#[derive(Clone, Copy, Debug, PartialEq, Eq, Structural)]
pub enum ImageShown {
    /// It is larger than what is to be received.
    TooBig,
    Shown,
    /// It is being fetched.
    Loading,
    /// It is to be fetched now.
    Fetch,
}

/// How an image in a message is shown: `at_hand` says whether its pixels are, `has_data` whether
/// the message brought its file, and `fresh` whether it was not asked for yet.
pub fn image_shown(
    byte_len: u64,
    limit: Option<u64>,
    at_hand: bool,
    has_data: bool,
    fresh: bool,
) -> (r: ImageShown)
    ensures
        r == if limit is Some && byte_len > limit->0 {
            ImageShown::TooBig
        } else if at_hand {
            ImageShown::Shown
        } else if !has_data && fresh {
            ImageShown::Fetch
        } else {
            ImageShown::Loading
        },
{
    let over = match limit {
        Some(limit) => byte_len > limit,
        None => false,
    };
    if over {
        ImageShown::TooBig
    } else if at_hand {
        ImageShown::Shown
    } else if !has_data && fresh {
        ImageShown::Fetch
    } else {
        ImageShown::Loading
    }
}

/// What stands in the place of an image that is not shown.
pub fn image_placeholder(shown: ImageShown, byte_len: u64) -> (r: Option<String>)
    ensures
        match r {
            Some(s) => shown != ImageShown::Shown && s@ == if shown == ImageShown::TooBig {
                "Image is too big ("@ + size_text(byte_len as int) + ")"@
            } else {
                "Loading image… ("@ + size_text(byte_len as int) + ")"@
            },
            None => shown == ImageShown::Shown,
        },
{
    let mut s: String = match shown {
        ImageShown::Shown => {
            return None;
        },
        ImageShown::TooBig => "Image is too big (".to_owned(),
        ImageShown::Loading => "Loading image… (".to_owned(),
        ImageShown::Fetch => "Loading image… (".to_owned(),
    };
    s.append(format_bytes(byte_len).as_str());
    s.append(")");
    Some(s)
}

/// What stands over an image that is looked at.
pub fn preview_detail(width: u32, height: u32, byte_len: u64) -> (s: String)
    ensures
        s@ == decimal(width as nat) + " × "@ + decimal(height as nat) + " · "@ + size_text(
            byte_len as int,
        ),
{
    let mut s: String = String::new();
    push_decimal(&mut s, width as u64);
    s.append(" × ");
    push_decimal(&mut s, height as u64);
    s.append(" · ");
    s.append(format_bytes(byte_len).as_str());
    assert(s@ =~= decimal(width as nat) + " × "@ + decimal(height as nat) + " · "@ + size_text(
        byte_len as int,
    ));
    s
}

/// How an image is looked at.
#[derive(Clone, Copy, Debug, PartialEq, Eq, Structural)]
pub enum ImagePreviewMode {
    Floating,
    FillWindow,
    Fullscreen,
}

impl Default for ImagePreviewMode {
    fn default() -> (m: Self)
        ensures
            m == ImagePreviewMode::Floating,
    {
        ImagePreviewMode::Floating
    }
}

/// What the user asks for while looking at an image.
#[derive(Clone, Copy, Debug, PartialEq, Eq, Structural)]
pub enum ImagePreviewAction {
    Close,
    Delete,
    SetMode(ImagePreviewMode),
}

/// What follows: how the image is looked at from now on, if at all; whether it leaves what is
/// being written; and what is asked of the window.
#[derive(Clone, Copy, Debug, PartialEq, Eq, Structural)]
pub struct PreviewStep {
    pub mode: Option<ImagePreviewMode>,
    pub delete: bool,
    pub fullscreen: Option<bool>,
}

/// What follows on what the user asks for while looking at an image. The window leaves its full
/// screen whenever the image does.
pub fn preview_step(mode: ImagePreviewMode, action: ImagePreviewAction) -> (r: PreviewStep)
    ensures
        r.mode == match action {
            ImagePreviewAction::SetMode(next) => Some(next),
            _ => None,
        },
        r.delete == (action == ImagePreviewAction::Delete),
        r.fullscreen == ({
            let was = mode == ImagePreviewMode::Fullscreen;
            let is = r.mode == Some(ImagePreviewMode::Fullscreen);
            if was == is {
                None
            } else {
                Some(is)
            }
        }),
{
    let was = mode == ImagePreviewMode::Fullscreen;
    match action {
        ImagePreviewAction::Close => PreviewStep {
            mode: None,
            delete: false,
            fullscreen: if was {
                Some(false)
            } else {
                None
            },
        },
        ImagePreviewAction::Delete => PreviewStep {
            mode: None,
            delete: true,
            fullscreen: if was {
                Some(false)
            } else {
                None
            },
        },
        ImagePreviewAction::SetMode(next) => {
            let is = next == ImagePreviewMode::Fullscreen;
            PreviewStep {
                mode: Some(next),
                delete: false,
                fullscreen: if was == is {
                    None
                } else {
                    Some(is)
                },
            }
        },
    }
}

/// The way of looking at an image after a button for one was pressed: the same leads back.
pub fn pressed_preview_mode(current: ImagePreviewMode, pressed: ImagePreviewMode) -> (r:
    ImagePreviewMode)
    ensures
        r == if current == pressed {
            ImagePreviewMode::Floating
        } else {
            pressed
        },
{
    if current == pressed {
        ImagePreviewMode::Floating
    } else {
        pressed
    }
}

/// The image that leaves first is the one used longest ago, of all, or of those whose file is
/// kept; there is always one as long as any counts.
pub proof fn law_oldest_image_leaves_first(entries: Seq<EntryView>, with_data: bool, k: int)
    requires
        0 <= k < entries.len(),
        with_data ==> entries[k].data is Some,
    ensures
        oldest(entries, with_data) is Some,
        0 <= oldest(entries, with_data)->0 < entries.len(),
        entries[oldest(entries, with_data)->0].last_used <= entries[k].last_used,
        with_data ==> entries[oldest(entries, with_data)->0].data is Some,
{
    lemma_oldest(entries, with_data);
    assert(counts(entries[k], with_data));
}

/// No image leaves while there are at most 128 of them with at most 256 MiB of pixels; else just
/// so many leave, and nothing but images that were there stays.
pub proof fn law_images_leave_only_for_room(entries: Seq<EntryView>, e: EntryView)
    ensures
        entries.len() <= 128 && texture_total(entries) <= 268_435_456 ==> shrunk(entries) == entries
            && left_for(entries).len() == 0,
        shrunk(entries).len() <= 128,
        texture_total(shrunk(entries)) <= 268_435_456,
        shrunk(entries).contains(e) ==> entries.contains(e),
        shrunk(entries).len() + left_for(entries).len() == entries.len(),
    decreases entries.len(),
{
    lemma_oldest(entries, false);
    if too_many(entries) {
        assert(counts(entries[0], false));
        let i = oldest(entries, false)->0;
        let rest = entries.remove(i);
        law_images_leave_only_for_room(rest, e);
        if shrunk(entries).contains(e) {
            let j = choose|j: int| 0 <= j < rest.len() && rest[j] == e;
            assert(entries[if j < i {
                j
            } else {
                j + 1
            }] == e);
        }
    }
}

/// Where files take too much room, only files are dropped: each image stays where it is.
pub proof fn law_files_leave_without_their_images(entries: Seq<EntryView>, fuel: nat, k: int)
    requires
        0 <= k < entries.len(),
    ensures
        lightened(entries, fuel).len() == entries.len(),
        lightened(entries, fuel)[k].id == entries[k].id,
        lightened(entries, fuel)[k].last_used == entries[k].last_used,
        lightened(entries, fuel)[k].texture_bytes == entries[k].texture_bytes,
        lightened(entries, fuel)[k].data is None || lightened(entries, fuel)[k].data
            == entries[k].data,
        data_total(entries) <= 67_108_864 ==> lightened(entries, fuel) == entries,
    decreases fuel,
{
    lemma_oldest(entries, true);
    if fuel > 0 && data_total(entries) > MAX_CACHED_ATTACHMENT_BYTES && oldest(entries, true)
        is Some {
        law_files_leave_without_their_images(
            without_file(entries, oldest(entries, true)->0),
            (fuel - 1) as nat,
            k,
        );
    }
}

proof fn lemma_entry_found(entries: Seq<EntryView>, id: Seq<char>)
    ensures
        entry_place(entries, id) <= entries.len(),
        entry_place(entries, id) < entries.len() ==> entries[entry_place(entries, id) as int].id
            == id,
        forall|j: int| 0 <= j < entry_place(entries, id) ==> (#[trigger] entries[j]).id != id,
    decreases entries.len(),
{
    if entries.len() > 0 && entries[0].id != id {
        let rest = entries.drop_first();
        lemma_entry_found(rest, id);
        assert forall|j: int| 0 <= j < entry_place(entries, id) implies (#[trigger] entries[j]).id
            != id by {
            if j > 0 {
                assert(rest[j - 1] == entries[j]);
            }
        }
    }
}

/// An image that was put in is there with its file and as just used; the others stay as they
/// were.
pub proof fn law_image_put_in_is_there(
    entries: Seq<EntryView>,
    id: Seq<char>,
    data: Arc<Vec<u8>>,
    now: u64,
    texture_bytes: usize,
    k: int,
)
    requires
        0 <= k < entries.len(),
    ensures
        ({
            let after = with_image(entries, id, data, now, texture_bytes);
            let at = entry_place(after, id) as int;
            &&& at < after.len()
            &&& after[at].id == id && after[at].data == Some(data) && after[at].last_used == now
            &&& entries[k].id != id ==> after[k] == entries[k]
            &&& entry_place(entries, id) == entries.len() ==> after[at].texture_bytes
                == texture_bytes && after.len() == entries.len() + 1
            &&& entry_place(entries, id) < entries.len() ==> after.len() == entries.len()
        }),
{
    let after = with_image(entries, id, data, now, texture_bytes);
    lemma_entry_found(entries, id);
    lemma_entry_found(after, id);
    let place = entry_place(entries, id) as int;
    let at = entry_place(after, id) as int;
    assert(after[place].id == id);
    assert(at <= place);
    if at < place {
        assert(after[at] == entries[at]);
    }
}

/// The unit nearest to a number is at most half a unit away.
pub proof fn law_sizes_are_rounded_to_the_nearest(n: int, unit: int)
    requires
        0 <= n,
        0 < unit,
    ensures
        -unit <= 2 * (nearest(n, unit) * unit - n) <= unit,
{
    let low = n / unit;
    let rest = n % unit;
    assert(n == low * unit + rest && 0 <= rest < unit) by {
        vstd::arithmetic::div_mod::lemma_fundamental_div_mod(n, unit);
        vstd::arithmetic::div_mod::lemma_mod_bound(n, unit);
        vstd::arithmetic::mul::lemma_mul_is_commutative(low, unit);
    }
    assert((low + 1) * unit == low * unit + unit) by (nonlinear_arith);
}

/// An image that can be decoded is taken in once, as it is: under its name, at its width and
/// height, with its bytes. What is none leaves all as it was and is refused with a word.
pub proof fn law_images_are_taken_as_they_are(
    before: Composer,
    after: Composer,
    name: Seq<char>,
    bytes: Vec<u8>,
    hash: Seq<char>,
    decoded: Result<(u32, u32), Seq<char>>,
)
    requires
        image_taken(before, after, name, bytes, hash, decoded),
    ensures
        ({
            let old_drafts = attachment_views(before.drafts@);
            let drafts = attachment_views(after.drafts@);
            let known = exists|i: int|
                0 <= i < old_drafts.len() && (#[trigger] old_drafts[i]).hash == hash;
            &&& after.text == before.text
            &&& decoded is Err || known ==> drafts == old_drafts
            &&& decoded is Err ==> after.error is Some
            &&& decoded is Ok ==> after.error == before.error
            &&& decoded is Ok && !known ==> {
                &&& drafts.len() == old_drafts.len() + 1
                &&& drafts.drop_last() == old_drafts
                &&& drafts.last().name == name
                &&& drafts.last().width == (decoded->Ok_0).0
                &&& drafts.last().height == (decoded->Ok_0).1
                &&& drafts.last().byte_len == bytes@.len()
                &&& drafts.last().hash == hash
                &&& drafts.last().id == hash
                &&& drafts.last().data == Some(Arc::new(bytes))
            }
        }),
{
    if decoded is Ok && !has_hash(attachment_views(before.drafts@), hash) {
        assert(attachment_views(after.drafts@).drop_last() =~= attachment_views(before.drafts@));
    }
}

/// Each known format has a media type of its own, and what is not known is only bytes.
pub proof fn law_formats_have_their_own_types(a: ImageKind, b: ImageKind)
    ensures
        a != b ==> media_text(Some(a)) != media_text(Some(b)),
        media_text(None) == media_text(Some(ImageKind::Other)),
        media_text(Some(ImageKind::Png)) == "image/png"@,
        media_text(Some(ImageKind::Jpeg)) == "image/jpeg"@,
        media_text(Some(ImageKind::Gif)) == "image/gif"@,
        media_text(Some(ImageKind::WebP)) == "image/webp"@,
        media_text(None) == "application/octet-stream"@,
{
    reveal_strlit("image/png");
    reveal_strlit("image/jpeg");
    reveal_strlit("image/gif");
    reveal_strlit("image/webp");
    reveal_strlit("image/bmp");
    reveal_strlit("image/tiff");
    reveal_strlit("image/x-icon");
    reveal_strlit("image/x-portable-anymap");
    reveal_strlit("image/qoi");
    reveal_strlit("image/x-tga");
    reveal_strlit("application/octet-stream");
    assert("image/png"@[6] == 'p');
    assert("image/jpeg"@[6] == 'j');
    assert("image/gif"@[6] == 'g');
    assert("image/webp"@[6] == 'w');
    assert("image/bmp"@[6] == 'b');
    assert("image/tiff"@[6] == 't');
    assert("image/qoi"@[6] == 'q');
    assert("image/x-icon"@[6] == 'x' && "image/x-icon"@[8] == 'i');
    assert("image/x-portable-anymap"@[6] == 'x' && "image/x-portable-anymap"@[8] == 'p');
    assert("image/x-tga"@[6] == 'x' && "image/x-tga"@[8] == 't');
    assert("application/octet-stream"@[0] == 'a' && "application/octet-stream"@[6] == 'a');
}

/// A new image is kept exactly if it could be decoded to at most 256 MiB of pixels; what is
/// refused changes nothing.
pub proof fn law_only_images_that_fit_are_kept(
    before: AttachmentTextureCache,
    after: AttachmentTextureCache,
    id: Seq<char>,
    data: Arc<Vec<u8>>,
    decoded: Option<usize>,
    gone: Option<Seq<Seq<char>>>,
)
    requires
        data_placed(before, after, id, data, decoded, gone),
        forall|i: int| 0 <= i < before.entries@.len() ==> (#[trigger] before.entries@[i]).id@ != id,
    ensures
        gone is Some <==> decoded is Some && decoded->0 <= 268_435_456,
        gone is None ==> entry_views(after.entries@) == entry_views(before.entries@),
        gone is Some && before.entries@.len() < 128 && texture_total(entry_views(before.entries@))
            + decoded->0 <= 268_435_456 ==> gone->0.len() == 0 && after.entries@.len()
            == before.entries@.len() + 1,
{
    let entries = entry_views(before.entries@);
    lemma_entry_found(entries, id);
    if entry_place(entries, id) < entries.len() {
        assert(before.entries@[entry_place(entries, id) as int].id@ == id);
    }
    if gone is Some {
        let e = EntryView {
            id,
            last_used: tick(before.clock),
            data: Some(data),
            texture_bytes: decoded->0,
        };
        let all = with_image(entries, id, data, tick(before.clock), decoded->0);
        assert(all == entries.push(e));
        lemma_totals_push(entries, e);
        law_images_leave_only_for_room(all, e);
        if shrunk(all) == all {
            law_files_leave_without_their_images(all, files(all), 0);
        }
    }
}

/// Of images equally long out of use, the one that came first leaves first.
pub proof fn law_first_of_equals_leaves_first(entries: Seq<EntryView>, with_data: bool, k: int)
    requires
        oldest(entries, with_data) is Some,
        0 <= k < oldest(entries, with_data)->0,
        with_data ==> entries[k].data is Some,
    ensures
        entries[oldest(entries, with_data)->0].last_used < entries[k].last_used,
    decreases entries.len(),
{
    let rest = entries.drop_last();
    let before = oldest(rest, with_data);
    lemma_oldest(rest, with_data);
    lemma_oldest(entries, with_data);
    assert(rest[k] == entries[k]);
    assert(counts(rest[k], with_data));
    if oldest(entries, with_data)->0 < rest.len() {
        law_first_of_equals_leaves_first(rest, with_data, k);
    }
}

/// An entry counts as a file where its bytes are kept.
pub proof fn law_kept_files_are_counted(entries: Seq<EntryView>, e: EntryView)
    ensures
        e.data is Some ==> files(entries.push(e)) == files(entries) + 1,
        e.data is None ==> files(entries.push(e)) == files(entries),
        files(Seq::<EntryView>::empty()) == 0,
{
    assert(entries.push(e).drop_last() == entries);
}

/// Each use is later than those before it, until the clock begins anew.
pub proof fn law_uses_follow_each_other(clock: u64)
    ensures
        clock < u64::MAX ==> tick(clock) == clock + 1,
        clock == u64::MAX ==> tick(clock) == 0,
{
}

/// A half is rounded to an even number, and a number of up to 53 bits is held as it is.
pub proof fn law_halves_are_rounded_to_even(n: int, unit: int)
    requires
        0 <= n,
        0 < unit,
    ensures
        2 * (n % unit) == unit ==> nearest(n, unit) % 2 == 0,
        n < 9_007_199_254_740_992 ==> as_double(n) == n,
{
}

/// Whole kilobytes, megabytes and gigabytes are told as what they are.
pub proof fn law_whole_sizes_are_told_exactly(n: int)
    requires
        0 <= n,
    ensures
        n < 1024 ==> size_text(n * 1024) == decimal(n as nat) + " KB"@,
        1 <= n < 1024 ==> size_text(n * 1_048_576) == decimal(n as nat) + " MB"@,
        1 <= n < 8_388_608 ==> size_text(n * 1_073_741_824) == decimal(n as nat) + "."@ + decimal(
            0,
        ) + " GB"@,
{
    if 1 <= n < 8_388_608 {
        law_halves_are_rounded_to_even(n * 1_073_741_824, 1);
        assert(nearest(10 * (n * 1_073_741_824), 0x4000_0000) == 10 * n);
    }
}

} // verus!
