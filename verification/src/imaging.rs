//! Decisions around images: displayed dimensions under an EXIF orientation,
//! preview file names and sizes, and the export format of an output path.

use vstd::prelude::*;
use crate::paths::{
    eq_ignore_ascii_case, ext_range, file_name_range, path_extension, paths_equal, same_path,
};
use crate::text::{hex_digit, hex_digits, push_hex, range_is, string_of, to_chars};
use image::ImageFormat;

verus! {

/// The EXIF orientation of a decoded image.
#[derive(Clone, Copy, PartialEq, Eq, Debug)]
pub enum Orientation {
    NoTransforms,
    Rotate90,
    Rotate180,
    Rotate270,
    FlipHorizontal,
    FlipVertical,
    Rotate90FlipH,
    Rotate270FlipH,
}

/// The orientations that turn the image by a quarter turn.
pub open spec fn swaps_axes(o: Orientation) -> bool {
    o is Rotate90 || o is Rotate270 || o is Rotate90FlipH || o is Rotate270FlipH
}

/// A linear map of the image plane as a 2×2 matrix `(a, b, c, d)`: a stored
/// offset `(x, y)` (x to the right, y downwards) is displayed at
/// `(a·x + b·y, c·x + d·y)`.
pub open spec fn compose(
    m: (int, int, int, int),
    n: (int, int, int, int),
) -> (int, int, int, int) {
    (m.0 * n.0 + m.1 * n.2, m.0 * n.1 + m.1 * n.3, m.2 * n.0 + m.3 * n.2, m.2 * n.1 + m.3 * n.3)
}

/// Leaving the image as it is.
pub open spec fn unturned() -> (int, int, int, int) {
    (1, 0, 0, 1)
}

/// A quarter turn clockwise: `(x, y)` goes to `(-y, x)`.
pub open spec fn quarter_turn() -> (int, int, int, int) {
    (0, -1, 1, 0)
}

/// A horizontal flip: `(x, y)` goes to `(-x, y)`.
pub open spec fn mirror_x() -> (int, int, int, int) {
    (-1, 0, 0, 1)
}

/// A vertical flip: `(x, y)` goes to `(x, -y)`.
pub open spec fn mirror_y() -> (int, int, int, int) {
    (1, 0, 0, -1)
}

/// What each orientation does to the stored image, built from quarter
/// turns clockwise and flips: `Rotate270` is three quarter turns, and the
/// `FlipH` orientations flip horizontally after turning.
pub open spec fn orientation_map(o: Orientation) -> (int, int, int, int) {
    let q = quarter_turn();
    match o {
        Orientation::NoTransforms => unturned(),
        Orientation::Rotate90 => q,
        Orientation::Rotate180 => compose(q, q),
        Orientation::Rotate270 => compose(q, compose(q, q)),
        Orientation::FlipHorizontal => mirror_x(),
        Orientation::FlipVertical => mirror_y(),
        Orientation::Rotate90FlipH => compose(mirror_x(), q),
        Orientation::Rotate270FlipH => compose(mirror_x(), compose(q, compose(q, q))),
    }
}

/// The absolute value of `x`.
pub open spec fn magnitude(x: int) -> int {
    if x < 0 {
        -x
    } else {
        x
    }
}

/// The width and height of the box that a `width`×`height` image fills
/// once the map `m` has been applied to it.
pub open spec fn mapped_extent(m: (int, int, int, int), width: int, height: int) -> (int, int) {
    (
        magnitude(m.0) * width + magnitude(m.1) * height,
        magnitude(m.2) * width + magnitude(m.3) * height,
    )
}

/// The width and height of an image as displayed, given the stored ones.
pub fn oriented_dimensions(width: u32, height: u32, orientation: Orientation) -> (r: (u32, u32))
    ensures
        r == (if swaps_axes(orientation) {
            (height, width)
        } else {
            (width, height)
        }),
        (r.0 as int, r.1 as int) == mapped_extent(
            orientation_map(orientation),
            width as int,
            height as int,
        ),
{
    proof {
        law_quarter_turns_swap_axes(orientation, width as int, height as int);
    }
    match orientation {
        Orientation::Rotate90 | Orientation::Rotate270 | Orientation::Rotate90FlipH
        | Orientation::Rotate270FlipH => (height, width),
        _ => (width, height),
    }
}

/// An orientation turns the image by a quarter turn, one way or the other,
/// exactly when it swaps the displayed width and height: under the
/// orientation's map a `width`×`height` image fills a `height`×`width` box
/// for `Rotate90`, `Rotate270`, `Rotate90FlipH` and `Rotate270FlipH`, and a
/// `width`×`height` box for the other four.
pub proof fn law_quarter_turns_swap_axes(o: Orientation, width: int, height: int)
    requires
        0 <= width,
        0 <= height,
    ensures
        mapped_extent(orientation_map(o), width, height) == (if swaps_axes(o) {
            (height, width)
        } else {
            (width, height)
        }),
{
    let q = quarter_turn();
    let half = compose(q, q);
    assert(half == (-1int, 0int, 0int, -1int));
    let three = compose(q, half);
    assert(three == (0int, 1int, -1int, 0int));
    assert(compose(mirror_x(), q) == (0int, 1int, 1int, 0int));
    assert(compose(mirror_x(), three) == (0int, -1int, -1int, 0int));
    let m = orientation_map(o);
    assert(magnitude(m.0) == 0 || magnitude(m.0) == 1);
    if swaps_axes(o) {
        assert(magnitude(m.0) == 0 && magnitude(m.1) == 1);
        assert(magnitude(m.2) == 1 && magnitude(m.3) == 0);
    } else {
        assert(magnitude(m.0) == 1 && magnitude(m.1) == 0);
        assert(magnitude(m.2) == 0 && magnitude(m.3) == 1);
    }
}

/// The longest edge of a source preview.
pub const PREVIEW_EDGE: u32 = 1600;

/// Whether a source image is shrunk for its preview.
pub fn needs_thumbnail(width: u32, height: u32) -> (r: bool)
    ensures
        r == (width > PREVIEW_EDGE || height > PREVIEW_EDGE),
{
    width > PREVIEW_EDGE || height > PREVIEW_EDGE
}

/// The file name of a graded preview whose inputs hash to `hash`.
pub open spec fn preview_name(hash: u64) -> Seq<char> {
    hex_digits(hash as nat, 16) + ".png"@
}

/// The file name of a source preview whose inputs hash to `hash`.
pub open spec fn source_preview_name(hash: u64) -> Seq<char> {
    "source-"@ + hex_digits(hash as nat, 16) + ".png"@
}

/// `{hash:016x}.png`.
pub fn preview_file_name(hash: u64) -> (r: String)
    ensures
        r@ == preview_name(hash),
{
    let mut s = String::new();
    push_hex(&mut s, hash, 16);
    s.append(".png");
    s
}

/// `source-{hash:016x}.png`.
pub fn source_preview_file_name(hash: u64) -> (r: String)
    ensures
        r@ == source_preview_name(hash),
{
    let mut s = "source-".to_owned();
    push_hex(&mut s, hash, 16);
    s.append(".png");
    s
}

pub open spec fn pow16(n: nat) -> nat
    decreases n,
{
    if n == 0 {
        1
    } else {
        16 * pow16((n - 1) as nat)
    }
}

proof fn lemma_hex_digits_len(h: nat, n: nat)
    ensures
        hex_digits(h, n).len() == n,
    decreases n,
{
    if n > 0 {
        lemma_hex_digits_len(h / 16, (n - 1) as nat);
    }
}

proof fn lemma_hex_digit_injective(a: nat, b: nat)
    requires
        a < 16,
        b < 16,
        hex_digit(a) == hex_digit(b),
    ensures
        a == b,
{
    let t = seq!['0', '1', '2', '3', '4', '5', '6', '7', '8', '9', 'a', 'b', 'c', 'd', 'e', 'f'];
    assert(hex_digit(a) == t[a as int]);
    assert(hex_digit(b) == t[b as int]);
}

proof fn lemma_hex_digits_injective(h: nat, g: nat, n: nat)
    requires
        h < pow16(n),
        g < pow16(n),
        hex_digits(h, n) == hex_digits(g, n),
    ensures
        h == g,
    decreases n,
{
    if n > 0 {
        let m = (n - 1) as nat;
        let p = pow16(m);
        assert(hex_digits(h, n).last() == hex_digit(h % 16));
        assert(hex_digits(g, n).last() == hex_digit(g % 16));
        lemma_hex_digit_injective(h % 16, g % 16);
        assert(hex_digits(h, n).drop_last() =~= hex_digits(h / 16, m));
        assert(hex_digits(g, n).drop_last() =~= hex_digits(g / 16, m));
        assert(h / 16 < p) by (nonlinear_arith)
            requires
                h < 16 * p,
        ;
        assert(g / 16 < p) by (nonlinear_arith)
            requires
                g < 16 * p,
        ;
        lemma_hex_digits_injective(h / 16, g / 16, m);
        assert(h == 16 * (h / 16) + h % 16) by (nonlinear_arith);
        assert(g == 16 * (g / 16) + g % 16) by (nonlinear_arith);
    }
}

/// Different hashes give different preview file names, so one cached
/// preview never stands for inputs that hash differently.
pub proof fn law_preview_names_are_distinct(a: u64, b: u64)
    ensures
        a != b ==> preview_name(a) != preview_name(b),
        a != b ==> source_preview_name(a) != source_preview_name(b),
{
    reveal_with_fuel(pow16, 17);
    assert(pow16(16) == 0x1_0000_0000_0000_0000);
    lemma_hex_digits_len(a as nat, 16);
    lemma_hex_digits_len(b as nat, 16);
    if preview_name(a) == preview_name(b) {
        assert(preview_name(a).take(16) =~= hex_digits(a as nat, 16));
        assert(preview_name(b).take(16) =~= hex_digits(b as nat, 16));
        lemma_hex_digits_injective(a as nat, b as nat, 16);
    }
    if source_preview_name(a) == source_preview_name(b) {
        let k = "source-"@.len() as int;
        assert(source_preview_name(a).subrange(k, k + 16) =~= hex_digits(a as nat, 16));
        assert(source_preview_name(b).subrange(k, k + 16) =~= hex_digits(b as nat, 16));
        lemma_hex_digits_injective(a as nat, b as nat, 16);
    }
}


/// The image formats of the image crate, by their names there.
#[derive(Clone, Copy, PartialEq, Eq, Debug)]
pub enum ImageKind {
    Png,
    Jpeg,
    Gif,
    WebP,
    Pnm,
    Tiff,
    Tga,
    Dds,
    Bmp,
    Ico,
    Hdr,
    OpenExr,
    Farbfeld,
    Avif,
    Qoi,
    Pcx,
}

/// The name of each format as `ImageFormat`'s `Debug` writes it.
pub open spec fn kind_name(k: ImageKind) -> Seq<char> {
    match k {
        ImageKind::Png => "Png"@,
        ImageKind::Jpeg => "Jpeg"@,
        ImageKind::Gif => "Gif"@,
        ImageKind::WebP => "WebP"@,
        ImageKind::Pnm => "Pnm"@,
        ImageKind::Tiff => "Tiff"@,
        ImageKind::Tga => "Tga"@,
        ImageKind::Dds => "Dds"@,
        ImageKind::Bmp => "Bmp"@,
        ImageKind::Ico => "Ico"@,
        ImageKind::Hdr => "Hdr"@,
        ImageKind::OpenExr => "OpenExr"@,
        ImageKind::Farbfeld => "Farbfeld"@,
        ImageKind::Avif => "Avif"@,
        ImageKind::Qoi => "Qoi"@,
        ImageKind::Pcx => "Pcx"@,
    }
}

/// The format `ImageFormat::from_extension` gives for an extension: its
/// table, the extension compared ignoring ASCII case.
pub open spec fn format_of_extension(e: Seq<char>) -> Option<ImageKind> {
    if eq_ignore_ascii_case(e, "avif"@) {
        Some(ImageKind::Avif)
    } else if eq_ignore_ascii_case(e, "jpg"@) || eq_ignore_ascii_case(e, "jpeg"@)
        || eq_ignore_ascii_case(e, "jfif"@) {
        Some(ImageKind::Jpeg)
    } else if eq_ignore_ascii_case(e, "png"@) || eq_ignore_ascii_case(e, "apng"@) {
        Some(ImageKind::Png)
    } else if eq_ignore_ascii_case(e, "gif"@) {
        Some(ImageKind::Gif)
    } else if eq_ignore_ascii_case(e, "webp"@) {
        Some(ImageKind::WebP)
    } else if eq_ignore_ascii_case(e, "tif"@) || eq_ignore_ascii_case(e, "tiff"@) {
        Some(ImageKind::Tiff)
    } else if eq_ignore_ascii_case(e, "tga"@) {
        Some(ImageKind::Tga)
    } else if eq_ignore_ascii_case(e, "dds"@) {
        Some(ImageKind::Dds)
    } else if eq_ignore_ascii_case(e, "bmp"@) {
        Some(ImageKind::Bmp)
    } else if eq_ignore_ascii_case(e, "ico"@) {
        Some(ImageKind::Ico)
    } else if eq_ignore_ascii_case(e, "hdr"@) {
        Some(ImageKind::Hdr)
    } else if eq_ignore_ascii_case(e, "exr"@) {
        Some(ImageKind::OpenExr)
    } else if eq_ignore_ascii_case(e, "pbm"@) || eq_ignore_ascii_case(e, "pam"@)
        || eq_ignore_ascii_case(e, "ppm"@) || eq_ignore_ascii_case(e, "pgm"@)
        || eq_ignore_ascii_case(e, "pnm"@) {
        Some(ImageKind::Pnm)
    } else if eq_ignore_ascii_case(e, "ff"@) {
        Some(ImageKind::Farbfeld)
    } else if eq_ignore_ascii_case(e, "qoi"@) {
        Some(ImageKind::Qoi)
    } else {
        None
    }
}

/// Trusted: `image::ImageFormat::from_extension`, which lowercases the
/// extension (ASCII) and looks it up in a fixed table; the format it gives
/// comes back by its `Debug` name. Claimed: exactly that table
/// (`format_of_extension`).
#[verifier::external_body]
fn format_name_for_extension(ext: &str) -> (r: Option<String>)
    ensures
        match format_of_extension(ext@) {
            Some(k) => r matches Some(n) && n@ == kind_name(k),
            None => r is None,
        },
{
    ImageFormat::from_extension(ext).map(|format| format!("{format:?}"))
}

/// The format whose `Debug` name is `s`, if any.
pub open spec fn kind_named(s: Seq<char>) -> Option<ImageKind> {
    if s == "Png"@ {
        Some(ImageKind::Png)
    } else if s == "Jpeg"@ {
        Some(ImageKind::Jpeg)
    } else if s == "Gif"@ {
        Some(ImageKind::Gif)
    } else if s == "WebP"@ {
        Some(ImageKind::WebP)
    } else if s == "Pnm"@ {
        Some(ImageKind::Pnm)
    } else if s == "Tiff"@ {
        Some(ImageKind::Tiff)
    } else if s == "Tga"@ {
        Some(ImageKind::Tga)
    } else if s == "Dds"@ {
        Some(ImageKind::Dds)
    } else if s == "Bmp"@ {
        Some(ImageKind::Bmp)
    } else if s == "Ico"@ {
        Some(ImageKind::Ico)
    } else if s == "Hdr"@ {
        Some(ImageKind::Hdr)
    } else if s == "OpenExr"@ {
        Some(ImageKind::OpenExr)
    } else if s == "Farbfeld"@ {
        Some(ImageKind::Farbfeld)
    } else if s == "Avif"@ {
        Some(ImageKind::Avif)
    } else if s == "Qoi"@ {
        Some(ImageKind::Qoi)
    } else if s == "Pcx"@ {
        Some(ImageKind::Pcx)
    } else {
        None
    }
}

proof fn lemma_names_tell_kinds_apart(k: ImageKind)
    ensures
        kind_named(kind_name(k)) == Some(k),
{
    reveal_strlit("Png");
    reveal_strlit("Jpeg");
    reveal_strlit("Gif");
    reveal_strlit("WebP");
    reveal_strlit("Pnm");
    reveal_strlit("Tiff");
    reveal_strlit("Tga");
    reveal_strlit("Dds");
    reveal_strlit("Bmp");
    reveal_strlit("Ico");
    reveal_strlit("Hdr");
    reveal_strlit("OpenExr");
    reveal_strlit("Farbfeld");
    reveal_strlit("Avif");
    reveal_strlit("Qoi");
    reveal_strlit("Pcx");
    match k {
        ImageKind::Png => {
        },
        ImageKind::Jpeg => {
            assert("Jpeg"@.len() != "Png"@.len());
        },
        ImageKind::Gif => {
            assert("Gif"@[0] != "Png"@[0]);
            assert("Gif"@.len() != "Jpeg"@.len());
        },
        ImageKind::WebP => {
            assert("WebP"@.len() != "Png"@.len());
            assert("WebP"@[0] != "Jpeg"@[0]);
            assert("WebP"@.len() != "Gif"@.len());
        },
        ImageKind::Pnm => {
            assert("Pnm"@[2] != "Png"@[2]);
            assert("Pnm"@.len() != "Jpeg"@.len());
            assert("Pnm"@[0] != "Gif"@[0]);
            assert("Pnm"@.len() != "WebP"@.len());
        },
        ImageKind::Tiff => {
            assert("Tiff"@.len() != "Png"@.len());
            assert("Tiff"@[0] != "Jpeg"@[0]);
            assert("Tiff"@.len() != "Gif"@.len());
            assert("Tiff"@[0] != "WebP"@[0]);
            assert("Tiff"@.len() != "Pnm"@.len());
        },
        ImageKind::Tga => {
            assert("Tga"@[0] != "Png"@[0]);
            assert("Tga"@.len() != "Jpeg"@.len());
            assert("Tga"@[0] != "Gif"@[0]);
            assert("Tga"@.len() != "WebP"@.len());
            assert("Tga"@[0] != "Pnm"@[0]);
            assert("Tga"@.len() != "Tiff"@.len());
        },
        ImageKind::Dds => {
            assert("Dds"@[0] != "Png"@[0]);
            assert("Dds"@.len() != "Jpeg"@.len());
            assert("Dds"@[0] != "Gif"@[0]);
            assert("Dds"@.len() != "WebP"@.len());
            assert("Dds"@[0] != "Pnm"@[0]);
            assert("Dds"@.len() != "Tiff"@.len());
            assert("Dds"@[0] != "Tga"@[0]);
        },
        ImageKind::Bmp => {
            assert("Bmp"@[0] != "Png"@[0]);
            assert("Bmp"@.len() != "Jpeg"@.len());
            assert("Bmp"@[0] != "Gif"@[0]);
            assert("Bmp"@.len() != "WebP"@.len());
            assert("Bmp"@[0] != "Pnm"@[0]);
            assert("Bmp"@.len() != "Tiff"@.len());
            assert("Bmp"@[0] != "Tga"@[0]);
            assert("Bmp"@[0] != "Dds"@[0]);
        },
        ImageKind::Ico => {
            assert("Ico"@[0] != "Png"@[0]);
            assert("Ico"@.len() != "Jpeg"@.len());
            assert("Ico"@[0] != "Gif"@[0]);
            assert("Ico"@.len() != "WebP"@.len());
            assert("Ico"@[0] != "Pnm"@[0]);
            assert("Ico"@.len() != "Tiff"@.len());
            assert("Ico"@[0] != "Tga"@[0]);
            assert("Ico"@[0] != "Dds"@[0]);
            assert("Ico"@[0] != "Bmp"@[0]);
        },
        ImageKind::Hdr => {
            assert("Hdr"@[0] != "Png"@[0]);
            assert("Hdr"@.len() != "Jpeg"@.len());
            assert("Hdr"@[0] != "Gif"@[0]);
            assert("Hdr"@.len() != "WebP"@.len());
            assert("Hdr"@[0] != "Pnm"@[0]);
            assert("Hdr"@.len() != "Tiff"@.len());
            assert("Hdr"@[0] != "Tga"@[0]);
            assert("Hdr"@[0] != "Dds"@[0]);
            assert("Hdr"@[0] != "Bmp"@[0]);
            assert("Hdr"@[0] != "Ico"@[0]);
        },
        ImageKind::OpenExr => {
            assert("OpenExr"@.len() != "Png"@.len());
            assert("OpenExr"@.len() != "Jpeg"@.len());
            assert("OpenExr"@.len() != "Gif"@.len());
            assert("OpenExr"@.len() != "WebP"@.len());
            assert("OpenExr"@.len() != "Pnm"@.len());
            assert("OpenExr"@.len() != "Tiff"@.len());
            assert("OpenExr"@.len() != "Tga"@.len());
            assert("OpenExr"@.len() != "Dds"@.len());
            assert("OpenExr"@.len() != "Bmp"@.len());
            assert("OpenExr"@.len() != "Ico"@.len());
            assert("OpenExr"@.len() != "Hdr"@.len());
        },
        ImageKind::Farbfeld => {
            assert("Farbfeld"@.len() != "Png"@.len());
            assert("Farbfeld"@.len() != "Jpeg"@.len());
            assert("Farbfeld"@.len() != "Gif"@.len());
            assert("Farbfeld"@.len() != "WebP"@.len());
            assert("Farbfeld"@.len() != "Pnm"@.len());
            assert("Farbfeld"@.len() != "Tiff"@.len());
            assert("Farbfeld"@.len() != "Tga"@.len());
            assert("Farbfeld"@.len() != "Dds"@.len());
            assert("Farbfeld"@.len() != "Bmp"@.len());
            assert("Farbfeld"@.len() != "Ico"@.len());
            assert("Farbfeld"@.len() != "Hdr"@.len());
            assert("Farbfeld"@.len() != "OpenExr"@.len());
        },
        ImageKind::Avif => {
            assert("Avif"@.len() != "Png"@.len());
            assert("Avif"@[0] != "Jpeg"@[0]);
            assert("Avif"@.len() != "Gif"@.len());
            assert("Avif"@[0] != "WebP"@[0]);
            assert("Avif"@.len() != "Pnm"@.len());
            assert("Avif"@[0] != "Tiff"@[0]);
            assert("Avif"@.len() != "Tga"@.len());
            assert("Avif"@.len() != "Dds"@.len());
            assert("Avif"@.len() != "Bmp"@.len());
            assert("Avif"@.len() != "Ico"@.len());
            assert("Avif"@.len() != "Hdr"@.len());
            assert("Avif"@.len() != "OpenExr"@.len());
            assert("Avif"@.len() != "Farbfeld"@.len());
        },
        ImageKind::Qoi => {
            assert("Qoi"@[0] != "Png"@[0]);
            assert("Qoi"@.len() != "Jpeg"@.len());
            assert("Qoi"@[0] != "Gif"@[0]);
            assert("Qoi"@.len() != "WebP"@.len());
            assert("Qoi"@[0] != "Pnm"@[0]);
            assert("Qoi"@.len() != "Tiff"@.len());
            assert("Qoi"@[0] != "Tga"@[0]);
            assert("Qoi"@[0] != "Dds"@[0]);
            assert("Qoi"@[0] != "Bmp"@[0]);
            assert("Qoi"@[0] != "Ico"@[0]);
            assert("Qoi"@[0] != "Hdr"@[0]);
            assert("Qoi"@.len() != "OpenExr"@.len());
            assert("Qoi"@.len() != "Farbfeld"@.len());
            assert("Qoi"@.len() != "Avif"@.len());
        },
        ImageKind::Pcx => {
            assert("Pcx"@[1] != "Png"@[1]);
            assert("Pcx"@.len() != "Jpeg"@.len());
            assert("Pcx"@[0] != "Gif"@[0]);
            assert("Pcx"@.len() != "WebP"@.len());
            assert("Pcx"@[1] != "Pnm"@[1]);
            assert("Pcx"@.len() != "Tiff"@.len());
            assert("Pcx"@[0] != "Tga"@[0]);
            assert("Pcx"@[0] != "Dds"@[0]);
            assert("Pcx"@[0] != "Bmp"@[0]);
            assert("Pcx"@[0] != "Ico"@[0]);
            assert("Pcx"@[0] != "Hdr"@[0]);
            assert("Pcx"@.len() != "OpenExr"@.len());
            assert("Pcx"@.len() != "Farbfeld"@.len());
            assert("Pcx"@.len() != "Avif"@.len());
            assert("Pcx"@[0] != "Qoi"@[0]);
        },
    }
}

/// The format whose `Debug` name is `name`.
fn kind_from_name(name: &str) -> (r: Option<ImageKind>)
    ensures
        r == kind_named(name@),
{
    let chars = to_chars(name);
    let n = chars.len();
    assert(chars@.subrange(0, n as int) =~= chars@);
    if range_is(&chars, 0, n, "Png") {
        return Some(ImageKind::Png);
    }
    if range_is(&chars, 0, n, "Jpeg") {
        return Some(ImageKind::Jpeg);
    }
    if range_is(&chars, 0, n, "Gif") {
        return Some(ImageKind::Gif);
    }
    if range_is(&chars, 0, n, "WebP") {
        return Some(ImageKind::WebP);
    }
    if range_is(&chars, 0, n, "Pnm") {
        return Some(ImageKind::Pnm);
    }
    if range_is(&chars, 0, n, "Tiff") {
        return Some(ImageKind::Tiff);
    }
    if range_is(&chars, 0, n, "Tga") {
        return Some(ImageKind::Tga);
    }
    if range_is(&chars, 0, n, "Dds") {
        return Some(ImageKind::Dds);
    }
    if range_is(&chars, 0, n, "Bmp") {
        return Some(ImageKind::Bmp);
    }
    if range_is(&chars, 0, n, "Ico") {
        return Some(ImageKind::Ico);
    }
    if range_is(&chars, 0, n, "Hdr") {
        return Some(ImageKind::Hdr);
    }
    if range_is(&chars, 0, n, "OpenExr") {
        return Some(ImageKind::OpenExr);
    }
    if range_is(&chars, 0, n, "Farbfeld") {
        return Some(ImageKind::Farbfeld);
    }
    if range_is(&chars, 0, n, "Avif") {
        return Some(ImageKind::Avif);
    }
    if range_is(&chars, 0, n, "Qoi") {
        return Some(ImageKind::Qoi);
    }
    if range_is(&chars, 0, n, "Pcx") {
        return Some(ImageKind::Pcx);
    }
    None
}

/// Why an output path cannot be written.
#[derive(Clone, Copy, PartialEq, Eq, Debug)]
pub enum ExportError {
    /// The output path names the input image.
    SameAsInput,
    /// The output path's directory does not exist.
    NoOutputDirectory,
    /// The output path has no extension of a known image format.
    UnsupportedExtension,
}

pub open spec fn export_error_text(e: ExportError) -> Seq<char> {
    match e {
        ExportError::SameAsInput => "Input and output paths must be different"@,
        ExportError::NoOutputDirectory => "The output directory does not exist"@,
        ExportError::UnsupportedExtension => "Unsupported output extension. Use PNG, JPEG, WebP, AVIF, TIFF, BMP, QOI, or TGA."@,
    }
}

impl ExportError {
    /// The text that tells a user why.
    pub fn message(&self) -> (r: String)
        ensures
            r@ == export_error_text(*self),
    {
        match *self {
            ExportError::SameAsInput => "Input and output paths must be different".to_owned(),
            ExportError::NoOutputDirectory => "The output directory does not exist".to_owned(),
            ExportError::UnsupportedExtension => "Unsupported output extension. Use PNG, JPEG, WebP, AVIF, TIFF, BMP, QOI, or TGA.".to_owned(),
        }
    }
}

/// Checks an export before any pixel is read: the output must not be the
/// input (`output_canonical` is the canonical output path when the output
/// already exists), its directory must exist, and its extension must name a
/// known image format, which is the format it is written in.
pub fn check_export(
    input_canonical: &str,
    output_canonical: Option<String>,
    output_directory_exists: bool,
    output_path: &str,
) -> (r: Result<ImageKind, ExportError>)
    ensures
        (match output_canonical {
            Some(o) => same_path(o@, input_canonical@),
            None => false,
        }) ==> r == Err::<ImageKind, ExportError>(ExportError::SameAsInput),
        !(match output_canonical {
            Some(o) => same_path(o@, input_canonical@),
            None => false,
        }) ==> {
            if !output_directory_exists {
                r == Err::<ImageKind, ExportError>(ExportError::NoOutputDirectory)
            } else {
                r == export_format_spec(output_path@)
            }
        },
{
    match output_canonical {
        Some(o) => {
            if paths_equal(o.as_str(), input_canonical) {
                return Err(ExportError::SameAsInput);
            }
        },
        None => {},
    }
    if !output_directory_exists {
        return Err(ExportError::NoOutputDirectory);
    }
    export_format(output_path)
}

/// The format `ImageFormat::from_path` gives for a path, or why none.
pub open spec fn export_format_spec(path: Seq<char>) -> Result<ImageKind, ExportError> {
    match path_extension(path) {
        Some(e) => match format_of_extension(e) {
            Some(k) => Ok(k),
            None => Err(ExportError::UnsupportedExtension),
        },
        None => Err(ExportError::UnsupportedExtension),
    }
}

/// The format an output file is written in, chosen by its extension as
/// `ImageFormat::from_path` chooses it.
pub fn export_format(output_path: &str) -> (r: Result<ImageKind, ExportError>)
    ensures
        r == export_format_spec(output_path@),
{
    let chars = to_chars(output_path);
    let ext = match file_name_range(&chars) {
        Some((a, b)) => match ext_range(&chars, a, b) {
            Some((x, y)) => string_of(&chars, x, y),
            None => {
                return Err(ExportError::UnsupportedExtension);
            },
        },
        None => {
            return Err(ExportError::UnsupportedExtension);
        },
    };
    let ghost e = ext@;
    proof {
        if let Some(k) = format_of_extension(e) {
            lemma_names_tell_kinds_apart(k);
        }
    }
    match format_name_for_extension(ext.as_str()) {
        Some(name) => match kind_from_name(name.as_str()) {
            Some(k) => Ok(k),
            None => Err(ExportError::UnsupportedExtension),
        },
        None => Err(ExportError::UnsupportedExtension),
    }
}

} // verus!
