//! Sprite sheets. Each sheet is a grid of 128x128 frames, 8 per row, in the
//! order of `FRAMES`.

use vstd::prelude::*;

use crate::text::same_text;

verus! {

pub const FRAME: usize = 128;

pub const COLUMNS: usize = 8;

pub const FRAMES: [&'static str; 34] = [
    "awake",
    "awake_blink",
    "scratch1",
    "scratch2",
    "wash",
    "yawn1",
    "yawn1_blink",
    "yawn2",
    "sleep1",
    "sleep2",
    "up1",
    "up2",
    "upright1",
    "upright2",
    "right1",
    "right2",
    "downright1",
    "downright2",
    "down1",
    "down2",
    "downleft1",
    "downleft2",
    "left1",
    "left2",
    "upleft1",
    "upleft2",
    "upclaw1",
    "upclaw2",
    "rightclaw1",
    "rightclaw2",
    "downclaw1",
    "downclaw2",
    "leftclaw1",
    "leftclaw2",
];

/// The name of frame `i` of a sheet.
pub open spec fn frame_name(i: int) -> Seq<char> {
    FRAMES[i]@
}

/// `name` names a frame of the sheet.
pub open spec fn is_frame(name: Seq<char>) -> bool {
    exists|i: int| 0 <= i < 34 && frame_name(i) == name
}

/// Where frame `name` is in the sheet: its first occurrence in `FRAMES`.
pub fn frame_index(name: &str) -> (i: usize)
    requires
        is_frame(name@),
    ensures
        i < 34,
        frame_name(i as int) == name@,
        forall|j: int| 0 <= j < i ==> frame_name(j) != name@,
{
    let mut i: usize = 0;
    while i < 34
        invariant
            i <= 34,
            is_frame(name@),
            forall|j: int| 0 <= j < i ==> frame_name(j) != name@,
        decreases 34 - i,
    {
        if same_text(FRAMES[i], name) {
            return i;
        }
        i = i + 1;
    }
    proof {
        let k = choose|k: int| 0 <= k < 34 && frame_name(k) == name@;
        assert(frame_name(k) != name@);
    }
    0
}

/// How the samples of a decoded image are laid out, as png reports it.
#[derive(Clone, Copy, Debug, PartialEq, Eq, Structural)]
pub enum ColorKind {
    Grayscale,
    Rgb,
    Indexed,
    GrayscaleAlpha,
    Rgba,
}

/// Why a sheet could not be made.
#[derive(Debug)]
pub enum SheetError {
    /// png could not decode the bytes; its message.
    Png(String),
    /// A palette image, which the sheet does not expect.
    Indexed,
    /// The image is smaller than a sheet: its width and height.
    TooSmall(u32, u32),
    /// The decoded samples are fewer than the image's size calls for.
    Truncated,
}

/// An image as png decodes it: width, height, sample layout and the
/// samples, 8 bits each, row by row.
pub struct Image {
    pub width: u32,
    pub height: u32,
    pub color: ColorKind,
    pub data: Vec<u8>,
}

/// What png's `Decoder` makes of `bytes` when asked for 8-bit samples: the
/// first frame's width, height, sample layout and samples, or its error
/// message.
pub uninterp spec fn png_image(bytes: Seq<u8>) -> Result<(u32, u32, ColorKind, Seq<u8>), Seq<char>>;

/// Decode `bytes` as a PNG with png's `Decoder`, normalized to 8-bit
/// samples, and read its first frame.
#[verifier::external_body]
fn decode_png(bytes: &[u8]) -> (r: Result<Image, String>)
    ensures
        match r {
            Ok(img) => png_image(bytes@) == Ok::<(u32, u32, ColorKind, Seq<u8>), Seq<char>>(
                (img.width, img.height, img.color, img.data@),
            ),
            Err(e) => png_image(bytes@) == Err::<(u32, u32, ColorKind, Seq<u8>), Seq<char>>(e@),
        },
{
    let mut decoder = png::Decoder::new(std::io::Cursor::new(bytes));
    decoder.set_transformations(png::Transformations::normalize_to_color8());
    let mut reader = decoder.read_info().map_err(|e| e.to_string())?;
    let mut data = vec![0; reader.output_buffer_size().ok_or("image too large")?];
    let info = reader.next_frame(&mut data).map_err(|e| e.to_string())?;
    let color = match info.color_type {
        png::ColorType::Grayscale => ColorKind::Grayscale,
        png::ColorType::Rgb => ColorKind::Rgb,
        png::ColorType::Indexed => ColorKind::Indexed,
        png::ColorType::GrayscaleAlpha => ColorKind::GrayscaleAlpha,
        png::ColorType::Rgba => ColorKind::Rgba,
    };
    Ok(Image { width: info.width, height: info.height, color, data })
}

/// Samples per pixel for each layout; a palette image has none usable.
pub open spec fn samples(color: ColorKind) -> nat {
    match color {
        ColorKind::Rgba => 4,
        ColorKind::Rgb => 3,
        ColorKind::GrayscaleAlpha => 2,
        ColorKind::Grayscale => 1,
        ColorKind::Indexed => 0,
    }
}

/// Channel `c` scaled by alpha `a`, rounded: premultiplying.
pub open spec fn premultiply(c: u8, a: u8) -> u32 {
    ((c * a + 127) / 255) as u32
}

/// The premultiplied ARGB pixel of red, green, blue and alpha samples.
pub open spec fn argb(r: u8, g: u8, b: u8, a: u8) -> u32 {
    ((a as u32) * 0x100_0000 + premultiply(r, a) * 0x1_0000 + premultiply(g, a) * 0x100
        + premultiply(b, a)) as u32
}

/// Pixel (`x`, `y`) of an image `width` wide with `ch` samples per pixel:
/// grey samples give all three colours, and a missing alpha is opaque.
pub open spec fn image_pixel(data: Seq<u8>, width: int, ch: int, x: int, y: int) -> u32 {
    let i = (y * width + x) * ch;
    if ch == 4 {
        argb(data[i], data[i + 1], data[i + 2], data[i + 3])
    } else if ch == 3 {
        argb(data[i], data[i + 1], data[i + 2], 255)
    } else if ch == 2 {
        argb(data[i], data[i], data[i], data[i + 1])
    } else {
        argb(data[i], data[i], data[i], 255)
    }
}

/// Frame `i` of a sheet cut from an image: the `FRAME`-square tile in
/// column `i % COLUMNS` and row `i / COLUMNS`, row by row.
pub open spec fn cut_frame(data: Seq<u8>, width: int, ch: int, i: int) -> Seq<u32> {
    Seq::new(
        (FRAME * FRAME) as nat,
        |p: int|
            image_pixel(
                data,
                width,
                ch,
                (i % 8) * 128 + p % 128,
                (i / 8) * 128 + p / 128,
            ),
    )
}

/// All frames cut from an image.
pub open spec fn cut_sheet(data: Seq<u8>, width: int, ch: int) -> Seq<Seq<u32>> {
    Seq::new(34, |i: int| cut_frame(data, width, ch, i))
}

/// The sheet an image makes, or why it makes none: palette images are
/// refused first, then images smaller than `COLUMNS` frames across by the
/// five rows the frames fill (1024 by 640 pixels), then images with too few
/// samples for their size.
pub open spec fn image_sheet(width: u32, height: u32, color: ColorKind, data: Seq<u8>) -> Result<
    Seq<Seq<u32>>,
    SheetError,
> {
    if color == ColorKind::Indexed {
        Err(SheetError::Indexed)
    } else if width < 1024 || height < 640 {
        Err(SheetError::TooSmall(width, height))
    } else if data.len() < width * height * samples(color) {
        Err(SheetError::Truncated)
    } else {
        Ok(cut_sheet(data, width as int, samples(color) as int))
    }
}

/// Premultiplied ARGB frames, `FRAME * FRAME` pixels each.
pub struct Sheet {
    frames: Vec<Vec<u32>>,
}

impl View for Sheet {
    type V = Seq<Seq<u32>>;

    closed spec fn view(&self) -> Seq<Seq<u32>> {
        self.frames@.map_values(|f: Vec<u32>| f@)
    }
}

proof fn lemma_pixel_in_image(x: int, y: int, width: int, height: int, ch: int, len: int)
    requires
        0 <= x < width,
        0 <= y < height,
        1 <= ch <= 4,
        width * height * ch <= len,
    ensures
        0 <= (y * width + x) * ch,
        (y * width + x) * ch + ch <= len,
        0 <= y * width,
        y * width + x <= (y * width + x) * ch,
{
    assert(0 <= y * width) by (nonlinear_arith)
        requires
            0 <= y,
            0 <= width,
    ;
    assert(y * width + x <= (y * width + x) * ch) by (nonlinear_arith)
        requires
            0 <= y * width + x,
            1 <= ch,
    ;
    assert((y * width + x) * ch + ch <= width * height * ch) by (nonlinear_arith)
        requires
            0 <= x < width,
            0 <= y < height,
            1 <= ch <= 4,
    ;
    assert(0 <= (y * width + x) * ch) by (nonlinear_arith)
        requires
            0 <= x,
            0 <= y,
            0 <= width,
            1 <= ch,
    ;
}

fn premultiply_sample(c: u8, a: u8) -> (r: u32)
    ensures
        r == premultiply(c, a),
        r <= 255,
{
    proof {
        assert(c * a <= 255 * 255) by (nonlinear_arith)
            requires
                c <= 255,
                a <= 255,
        ;
    }
    ((c as u32) * (a as u32) + 127) / 255
}

fn argb_pixel(r: u8, g: u8, b: u8, a: u8) -> (p: u32)
    ensures
        p == argb(r, g, b, a),
{
    let (pr, pg, pb) = (premultiply_sample(r, a), premultiply_sample(g, a), premultiply_sample(b, a));
    let aa = a as u32;
    proof {
        assert((aa << 24u32) | (pr << 16u32) | (pg << 8u32) | pb == aa * 0x100_0000 + pr * 0x1_0000
            + pg * 0x100 + pb) by (bit_vector)
            requires
                aa <= 255,
                pr <= 255,
                pg <= 255,
                pb <= 255,
        ;
    }
    (aa << 24) | (pr << 16) | (pg << 8) | pb
}

impl Sheet {
    #[verifier::type_invariant]
    spec fn complete(self) -> bool {
        &&& self.frames@.len() == 34
        &&& forall|i: int| 0 <= i < 34 ==> #[trigger] self.frames@[i]@.len() == FRAME * FRAME
    }

    /// Cut a sheet from a decoded image `width` by `height` whose samples,
    /// laid out as `color`, are `data`.
    pub fn from_image(width: u32, height: u32, color: ColorKind, data: &[u8]) -> (r: Result<
        Sheet,
        SheetError,
    >)
        ensures
            match (r, image_sheet(width, height, color, data@)) {
                (Ok(sheet), Ok(frames)) => sheet@ == frames,
                (Err(e), Err(f)) => e == f,
                _ => false,
            },
    {
        let ch: usize = match color {
            ColorKind::Rgba => 4,
            ColorKind::Rgb => 3,
            ColorKind::GrayscaleAlpha => 2,
            ColorKind::Grayscale => 1,
            ColorKind::Indexed => return Err(SheetError::Indexed),
        };
        if width < 1024 || height < 640 {
            return Err(SheetError::TooSmall(width, height));
        }
        proof {
            assert((width as u128) * (height as u128) <= 0xffff_ffff * 0xffff_ffffu128) by (nonlinear_arith)
                requires
                    width <= 0xffff_ffff,
                    height <= 0xffff_ffff,
            ;
            assert((width as u128) * (height as u128) * (ch as u128) <= 0xffff_ffff * 0xffff_ffffu128 * 4) by (nonlinear_arith)
                requires
                    (width as u128) * (height as u128) <= 0xffff_ffff * 0xffff_ffffu128,
                    ch <= 4,
            ;
        }
        let need = (width as u128) * (height as u128) * (ch as u128);
        if (data.len() as u128) < need {
            return Err(SheetError::Truncated);
        }
        let w = width as usize;
        let ghost h = height as int;
        let len = data.len();
        let mut frames: Vec<Vec<u32>> = Vec::new();
        let mut i: usize = 0;
        while i < 34
            invariant
                i <= 34,
                1 <= ch <= 4,
                ch == samples(color),
                w == width,
                width >= 1024,
                height >= 640,
                w * h * ch <= data@.len(),
                h == height as int,
                len == data@.len(),
                frames@.len() == i,
                forall|j: int|
                    0 <= j < i ==> #[trigger] frames@[j]@ == cut_frame(data@, w as int, ch as int, j),
            decreases 34 - i,
        {
            let (ox, oy) = ((i % 8) * 128, (i / 8) * 128);
            let mut frame: Vec<u32> = Vec::new();
            let mut p: usize = 0;
            while p < 16384
                invariant
                    i < 34,
                    ox == (i % 8) * 128,
                    oy == (i / 8) * 128,
                    p <= 16384,
                    1 <= ch <= 4,
                    w == width,
                    width >= 1024,
                    height >= 640,
                    w * h * ch <= data@.len(),
                    h == height as int,
                    len == data@.len(),
                    frame@.len() == p,
                    forall|q: int|
                        0 <= q < p ==> #[trigger] frame@[q] == image_pixel(
                            data@,
                            w as int,
                            ch as int,
                            ox + q % 128,
                            oy + q / 128,
                        ),
                decreases 16384 - p,
            {
                let (x, y) = (ox + p % 128, oy + p / 128);
                proof {
                    assert(x < 1024);
                    assert(y < 640);
                    lemma_pixel_in_image(x as int, y as int, w as int, h, ch as int, data@.len() as int);
                }
                let k = (y * w + x) * ch;
                let px = if ch == 4 {
                    argb_pixel(data[k], data[k + 1], data[k + 2], data[k + 3])
                } else if ch == 3 {
                    argb_pixel(data[k], data[k + 1], data[k + 2], 255)
                } else if ch == 2 {
                    argb_pixel(data[k], data[k], data[k], data[k + 1])
                } else {
                    argb_pixel(data[k], data[k], data[k], 255)
                };
                frame.push(px);
                p = p + 1;
            }
            proof {
                assert(frame@ =~= cut_frame(data@, w as int, ch as int, i as int));
            }
            frames.push(frame);
            i = i + 1;
        }
        let sheet = Sheet { frames };
        proof {
            assert(sheet@ =~= cut_sheet(data@, w as int, ch as int));
        }
        Ok(sheet)
    }

    /// Decode the PNG in `bytes` with png and cut a sheet from it.
    pub fn decode(bytes: &[u8]) -> (r: Result<Sheet, SheetError>)
        ensures
            match png_image(bytes@) {
                Err(msg) => r matches Err(SheetError::Png(m)) && m@ == msg,
                Ok((w, h, c, d)) => match (r, image_sheet(w, h, c, d)) {
                    (Ok(sheet), Ok(frames)) => sheet@ == frames,
                    (Err(e), Err(f)) => e == f,
                    _ => false,
                },
            },
    {
        match decode_png(bytes) {
            Err(e) => Err(SheetError::Png(e)),
            Ok(img) => Sheet::from_image(img.width, img.height, img.color, img.data.as_slice()),
        }
    }

    /// Frame `name`, `FRAME * FRAME` premultiplied ARGB pixels.
    pub fn get(&self, name: &str) -> (f: &[u32])
        requires
            is_frame(name@),
        ensures
            f@.len() == FRAME * FRAME,
            exists|i: int|
                0 <= i < 34 && frame_name(i) == name@ && (forall|j: int|
                    0 <= j < i ==> frame_name(j) != name@) && f@ == self@[i],
            forall|i: int| 0 <= i < 34 && frame_name(i) == name@ ==> f@ == #[trigger] self@[i],
    {
        proof {
            use_type_invariant(self);
        }
        let index = frame_index(name);
        let f = self.frames[index].as_slice();
        proof {
            assert(f@ == self@[index as int]);
            assert forall|i: int| 0 <= i < 34 && frame_name(i) == name@ implies f@ == #[trigger] self@[i] by {
                if i < index {
                    law_frame_names_differ(i, index as int);
                } else if i > index {
                    law_frame_names_differ(index as int, i);
                }
            }
        }
        f
    }
}

} // verus!

verus! {

/// Every pixel cut from an image is properly premultiplied: no colour
/// channel exceeds its alpha.
pub proof fn law_premultiplied(c: u8, a: u8)
    ensures
        premultiply(c, a) <= a,
{
    assert((c * a + 127) / 255 <= a) by (nonlinear_arith)
        requires
            c <= 255,
            a <= 255,
    ;
}

/// A sheet cut from an image holds 34 frames of 128 by 128 pixels, and
/// pixel `p` of frame `i` (row by row) is the image pixel in column
/// `(i % 8) * 128 + p % 128` and row `(i / 8) * 128 + p / 128`: frames are
/// the tiles of the image, eight to a row, in order, upright and unmirrored.
/// For an RGBA image that pixel is made of the four samples at
/// `4 * (row * width + column)`.
pub proof fn law_frames_are_tiles(
    width: u32,
    height: u32,
    color: ColorKind,
    data: Seq<u8>,
    i: int,
    p: int,
)
    requires
        0 <= i < 34,
        0 <= p < 16384,
    ensures
        match image_sheet(width, height, color, data) {
            Ok(frames) => {
                let (col, row) = ((i % 8) * 128 + p % 128, (i / 8) * 128 + p / 128);
                let k = (row * width + col) * 4;
                &&& frames.len() == 34
                &&& frames[i].len() == 16384
                &&& frames[i][p] == image_pixel(data, width as int, samples(color) as int, col, row)
                &&& color == ColorKind::Rgba ==> frames[i][p] == argb(
                    data[k],
                    data[k + 1],
                    data[k + 2],
                    data[k + 3],
                )
                &&& p < 128 ==> frames[i][p] == image_pixel(
                    data,
                    width as int,
                    samples(color) as int,
                    (i % 8) * 128 + p,
                    (i / 8) * 128,
                )
            },
            Err(_) => true,
        },
{
}

/// An image makes a sheet exactly when it is not a palette image, is at
/// least 1024 by 640 pixels, and has all its samples: four per pixel for
/// RGBA, three for RGB, two for grey with alpha, one for grey. Otherwise the
/// refusal names the first problem: a palette, then the size (with the
/// image's width and height), then missing samples.
pub proof fn law_which_images_make_sheets(width: u32, height: u32, color: ColorKind, data: Seq<u8>)
    ensures
        color == ColorKind::Indexed ==> image_sheet(width, height, color, data) == Err::<
            Seq<Seq<u32>>,
            SheetError,
        >(SheetError::Indexed),
        color != ColorKind::Indexed && (width < 1024 || height < 640) ==> image_sheet(
            width,
            height,
            color,
            data,
        ) == Err::<Seq<Seq<u32>>, SheetError>(SheetError::TooSmall(width, height)),
        ({
            let per = match color {
                ColorKind::Rgba => 4int,
                ColorKind::Rgb => 3,
                ColorKind::GrayscaleAlpha => 2,
                ColorKind::Grayscale => 1,
                ColorKind::Indexed => 0,
            };
            &&& color != ColorKind::Indexed && width >= 1024 && height >= 640 && data.len() < width
                * height * per ==> image_sheet(width, height, color, data) == Err::<
                Seq<Seq<u32>>,
                SheetError,
            >(SheetError::Truncated)
            &&& color != ColorKind::Indexed && width >= 1024 && height >= 640 && data.len() >= width
                * height * per ==> image_sheet(width, height, color, data) is Ok
        }),
{
}

/// How samples become pixels: the alpha sample is the pixel's top byte (an
/// opaque one for images without alpha), an opaque pixel keeps its colour
/// samples as they are, a fully transparent one is black, and grey samples
/// give the same value to red, green and blue.
pub proof fn law_pixel_colours(data: Seq<u8>, width: int, x: int, y: int, c: u8, r: u8, g: u8, b: u8, a: u8)
    ensures
        premultiply(c, 255) == c as u32,
        premultiply(c, 0) == 0,
        argb(r, g, b, a) == (a as u32) * 0x100_0000 + premultiply(r, a) * 0x1_0000
            + premultiply(g, a) * 0x100 + premultiply(b, a),
        ({
            let i = y * width + x;
            &&& image_pixel(data, width, 4, x, y) == argb(data[i * 4], data[i * 4 + 1], data[i * 4 + 2], data[i * 4 + 3])
            &&& image_pixel(data, width, 3, x, y) == argb(data[i * 3], data[i * 3 + 1], data[i * 3 + 2], 255)
            &&& image_pixel(data, width, 2, x, y) == argb(data[i * 2], data[i * 2], data[i * 2], data[i * 2 + 1])
            &&& image_pixel(data, width, 1, x, y) == argb(data[i], data[i], data[i], 255)
        }),
{
    assert((c * 255 + 127) / 255 == c) by (nonlinear_arith)
        requires
            0 <= c <= 255,
    ;
    assert(premultiply(r, a) <= 255 && premultiply(g, a) <= 255 && premultiply(b, a) <= 255) by {
        law_premultiplied(r, a);
        law_premultiplied(g, a);
        law_premultiplied(b, a);
    }
}

/// Which frame a name names, told apart by its length and its first, fifth
/// and last characters; 34 for a name that is no frame's.
pub open spec fn frame_named(s: Seq<char>) -> int {
    if s.len() == 5 && s[0] == 'a' && s[4] == 'e' && s.last() == 'e' {
        0
    } else if s.len() == 11 && s[0] == 'a' && s[4] == 'e' && s.last() == 'k' {
        1
    } else if s.len() == 8 && s[0] == 's' && s[4] == 't' && s.last() == '1' {
        2
    } else if s.len() == 8 && s[0] == 's' && s[4] == 't' && s.last() == '2' {
        3
    } else if s.len() == 4 && s[0] == 'w' && s.last() == 'h' {
        4
    } else if s.len() == 5 && s[0] == 'y' && s[4] == '1' && s.last() == '1' {
        5
    } else if s.len() == 11 && s[0] == 'y' && s[4] == '1' && s.last() == 'k' {
        6
    } else if s.len() == 5 && s[0] == 'y' && s[4] == '2' && s.last() == '2' {
        7
    } else if s.len() == 6 && s[0] == 's' && s[4] == 'p' && s.last() == '1' {
        8
    } else if s.len() == 6 && s[0] == 's' && s[4] == 'p' && s.last() == '2' {
        9
    } else if s.len() == 3 && s[0] == 'u' && s.last() == '1' {
        10
    } else if s.len() == 3 && s[0] == 'u' && s.last() == '2' {
        11
    } else if s.len() == 8 && s[0] == 'u' && s[4] == 'g' && s.last() == '1' {
        12
    } else if s.len() == 8 && s[0] == 'u' && s[4] == 'g' && s.last() == '2' {
        13
    } else if s.len() == 6 && s[0] == 'r' && s[4] == 't' && s.last() == '1' {
        14
    } else if s.len() == 6 && s[0] == 'r' && s[4] == 't' && s.last() == '2' {
        15
    } else if s.len() == 10 && s[0] == 'd' && s[4] == 'r' && s.last() == '1' {
        16
    } else if s.len() == 10 && s[0] == 'd' && s[4] == 'r' && s.last() == '2' {
        17
    } else if s.len() == 5 && s[0] == 'd' && s[4] == '1' && s.last() == '1' {
        18
    } else if s.len() == 5 && s[0] == 'd' && s[4] == '2' && s.last() == '2' {
        19
    } else if s.len() == 9 && s[0] == 'd' && s[4] == 'l' && s.last() == '1' {
        20
    } else if s.len() == 9 && s[0] == 'd' && s[4] == 'l' && s.last() == '2' {
        21
    } else if s.len() == 5 && s[0] == 'l' && s[4] == '1' && s.last() == '1' {
        22
    } else if s.len() == 5 && s[0] == 'l' && s[4] == '2' && s.last() == '2' {
        23
    } else if s.len() == 7 && s[0] == 'u' && s[4] == 'f' && s.last() == '1' {
        24
    } else if s.len() == 7 && s[0] == 'u' && s[4] == 'f' && s.last() == '2' {
        25
    } else if s.len() == 7 && s[0] == 'u' && s[4] == 'a' && s.last() == '1' {
        26
    } else if s.len() == 7 && s[0] == 'u' && s[4] == 'a' && s.last() == '2' {
        27
    } else if s.len() == 10 && s[0] == 'r' && s[4] == 't' && s.last() == '1' {
        28
    } else if s.len() == 10 && s[0] == 'r' && s[4] == 't' && s.last() == '2' {
        29
    } else if s.len() == 9 && s[0] == 'd' && s[4] == 'c' && s.last() == '1' {
        30
    } else if s.len() == 9 && s[0] == 'd' && s[4] == 'c' && s.last() == '2' {
        31
    } else if s.len() == 9 && s[0] == 'l' && s[4] == 'c' && s.last() == '1' {
        32
    } else if s.len() == 9 && s[0] == 'l' && s[4] == 'c' && s.last() == '2' {
        33
    } else {
        34
    }
}

/// Every frame has a name of its own, so a name picks one frame: the frame
/// `Sheet::get` returns for the name of frame `i` is frame `i`.
pub proof fn law_frame_names_differ(i: int, j: int)
    requires
        0 <= i < j < 34,
    ensures
        frame_name(i) != frame_name(j),
{
    reveal_strlit("awake");
    reveal_strlit("awake_blink");
    reveal_strlit("scratch1");
    reveal_strlit("scratch2");
    reveal_strlit("wash");
    reveal_strlit("yawn1");
    reveal_strlit("yawn1_blink");
    reveal_strlit("yawn2");
    reveal_strlit("sleep1");
    reveal_strlit("sleep2");
    reveal_strlit("up1");
    reveal_strlit("up2");
    reveal_strlit("upright1");
    reveal_strlit("upright2");
    reveal_strlit("right1");
    reveal_strlit("right2");
    reveal_strlit("downright1");
    reveal_strlit("downright2");
    reveal_strlit("down1");
    reveal_strlit("down2");
    reveal_strlit("downleft1");
    reveal_strlit("downleft2");
    reveal_strlit("left1");
    reveal_strlit("left2");
    reveal_strlit("upleft1");
    reveal_strlit("upleft2");
    reveal_strlit("upclaw1");
    reveal_strlit("upclaw2");
    reveal_strlit("rightclaw1");
    reveal_strlit("rightclaw2");
    reveal_strlit("downclaw1");
    reveal_strlit("downclaw2");
    reveal_strlit("leftclaw1");
    reveal_strlit("leftclaw2");
    assert(frame_named(frame_name(0)) == 0);
    assert(frame_named(frame_name(1)) == 1);
    assert(frame_named(frame_name(2)) == 2);
    assert(frame_named(frame_name(3)) == 3);
    assert(frame_named(frame_name(4)) == 4);
    assert(frame_named(frame_name(5)) == 5);
    assert(frame_named(frame_name(6)) == 6);
    assert(frame_named(frame_name(7)) == 7);
    assert(frame_named(frame_name(8)) == 8);
    assert(frame_named(frame_name(9)) == 9);
    assert(frame_named(frame_name(10)) == 10);
    assert(frame_named(frame_name(11)) == 11);
    assert(frame_named(frame_name(12)) == 12);
    assert(frame_named(frame_name(13)) == 13);
    assert(frame_named(frame_name(14)) == 14);
    assert(frame_named(frame_name(15)) == 15);
    assert(frame_named(frame_name(16)) == 16);
    assert(frame_named(frame_name(17)) == 17);
    assert(frame_named(frame_name(18)) == 18);
    assert(frame_named(frame_name(19)) == 19);
    assert(frame_named(frame_name(20)) == 20);
    assert(frame_named(frame_name(21)) == 21);
    assert(frame_named(frame_name(22)) == 22);
    assert(frame_named(frame_name(23)) == 23);
    assert(frame_named(frame_name(24)) == 24);
    assert(frame_named(frame_name(25)) == 25);
    assert(frame_named(frame_name(26)) == 26);
    assert(frame_named(frame_name(27)) == 27);
    assert(frame_named(frame_name(28)) == 28);
    assert(frame_named(frame_name(29)) == 29);
    assert(frame_named(frame_name(30)) == 30);
    assert(frame_named(frame_name(31)) == 31);
    assert(frame_named(frame_name(32)) == 32);
    assert(frame_named(frame_name(33)) == 33);
}

} // verus!
