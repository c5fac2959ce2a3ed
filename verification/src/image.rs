use vstd::arithmetic::div_mod::{lemma_div_pos_is_pos, lemma_multiply_divide_lt};
use vstd::prelude::*;

verus! {

/// Why an image operation was refused.
#[derive(Clone, Copy, Debug, PartialEq, Eq, Structural)]
pub enum ImageError {
    /// A requested rectangle does not lie fully inside the image.
    OutOfBounds,
    /// Two images were expected to have identical dimensions but do not.
    SizeMismatch,
    /// A channel index at or beyond the image's channel count.
    BadChannel,
    /// An image without pixels where pixels had to be sampled.
    EmptyImage,
}

/// A rectangular sub-window of an image, in pixels: `x` and `y` are the
/// top-left corner, `width` and `height` its extent.
#[derive(Clone, Copy, Debug, PartialEq, Eq, Structural)]
pub struct Rect {
    pub x: usize,
    pub y: usize,
    pub width: usize,
    pub height: usize,
}

/// The sample of column `x`, row `y`, channel `c` in a flat row-major,
/// channel-interleaved sample sequence whose rows are `w` pixels of `ch`
/// samples each.
pub open spec fn pix_at(data: Seq<u8>, w: int, ch: int, x: int, y: int, c: int) -> u8 {
    data[(y * w + x) * ch + c]
}

/// An in-memory two-dimensional pixel buffer with one or more interleaved
/// 8-bit channels per pixel.
///
/// The sample of column `x`, row `y`, channel `c` stands at position
/// `(y * width + x) * channels + c` of the data, rows top to bottom. The
/// view of an image is that flat sample sequence.
pub struct Image {
    width: usize,
    height: usize,
    channels: usize,
    data: Vec<u8>,
}

impl View for Image {
    type V = Seq<u8>;

    closed spec fn view(&self) -> Seq<u8> {
        self.data@
    }
}

impl Image {
    pub closed spec fn spec_width(&self) -> usize {
        self.width
    }

    pub closed spec fn spec_height(&self) -> usize {
        self.height
    }

    pub closed spec fn spec_channels(&self) -> usize {
        self.channels
    }

    /// A well-formed image has at least one channel and exactly one sample
    /// per channel of each of its `width * height` pixels.
    pub open spec fn wf(&self) -> bool {
        &&& self.spec_channels() >= 1
        &&& self@.len() == self.spec_width() * self.spec_height() * self.spec_channels()
    }

    /// The sample of column `x`, row `y`, channel `c`.
    pub open spec fn spec_pix(&self, x: int, y: int, c: int) -> u8 {
        pix_at(self@, self.spec_width() as int, self.spec_channels() as int, x, y, c)
    }

    /// Whether `self` and `other` cover the same pixel grid.
    pub open spec fn same_size(&self, other: &Image) -> bool {
        self.spec_width() == other.spec_width() && self.spec_height() == other.spec_height()
    }

    /// Build an image from raw interleaved samples. Fails with `BadChannel`
    /// when no channel is given, and with `SizeMismatch` when the buffer
    /// does not hold exactly `width * height * channels` samples.
    pub fn from_raw(width: usize, height: usize, channels: usize, data: Vec<u8>) -> (r: Result<
        Image,
        ImageError,
    >)
        ensures
            match r {
                Ok(img) => {
                    &&& channels >= 1
                    &&& data@.len() == width * height * channels
                    &&& img.spec_width() == width
                    &&& img.spec_height() == height
                    &&& img.spec_channels() == channels
                    &&& img@ == data@
                    &&& img.wf()
                },
                Err(e) => {
                    &&& (e == ImageError::BadChannel <==> channels == 0)
                    &&& (e == ImageError::SizeMismatch <==> channels >= 1 && data@.len() != width
                        * height * channels)
                    &&& (e == ImageError::BadChannel || e == ImageError::SizeMismatch)
                },
            },
            r is Ok <==> channels >= 1 && data@.len() == width * height * channels,
    {
        if channels == 0 {
            return Err(ImageError::BadChannel);
        }
        let n = data.len();
        let pixels = match width.checked_mul(height) {
            Some(p) => p,
            None => {
                proof {
                    lemma_mul_le_total(width as int, height as int, channels as int);
                }
                return Err(ImageError::SizeMismatch);
            },
        };
        let total = match pixels.checked_mul(channels) {
            Some(t) => t,
            None => {
                return Err(ImageError::SizeMismatch);
            },
        };
        if n != total {
            return Err(ImageError::SizeMismatch);
        }
        Ok(Image { width, height, channels, data })
    }

    pub fn width(&self) -> (r: usize)
        ensures
            r == self.spec_width(),
    {
        self.width
    }

    pub fn height(&self) -> (r: usize)
        ensures
            r == self.spec_height(),
    {
        self.height
    }

    pub fn channels(&self) -> (r: usize)
        ensures
            r == self.spec_channels(),
    {
        self.channels
    }

    /// The raw interleaved samples of the image.
    pub fn data(&self) -> (r: &Vec<u8>)
        ensures
            r@ == self@,
    {
        &self.data
    }

    /// Read one sample.
    pub fn get(&self, x: usize, y: usize, c: usize) -> (r: u8)
        requires
            self.wf(),
            x < self.spec_width(),
            y < self.spec_height(),
            c < self.spec_channels(),
        ensures
            r == self.spec_pix(x as int, y as int, c as int),
    {
        let n = self.data.len();
        proof {
            lemma_sample_index_bound(
                x as int,
                y as int,
                c as int,
                self.spec_width() as int,
                self.spec_height() as int,
                self.spec_channels() as int,
            );
            lemma_mul_le_total(
                self.spec_width() as int,
                self.spec_height() as int,
                self.spec_channels() as int,
            );
        }
        self.data[(y * self.width + x) * self.channels + c]
    }
}

/// For one channel at least, a pixel count never exceeds a sample count.
proof fn lemma_mul_le_total(w: int, h: int, ch: int)
    requires
        0 <= w,
        0 <= h,
        1 <= ch,
    ensures
        w * h <= w * h * ch,
{
    assert(w * h <= w * h * ch) by (nonlinear_arith)
        requires
            0 <= w,
            0 <= h,
            1 <= ch,
    ;
}

/// The position of a sample inside the bounds of its image's data.
proof fn lemma_sample_index_bound(x: int, y: int, c: int, w: int, h: int, ch: int)
    requires
        0 <= x < w,
        0 <= y < h,
        0 <= c < ch,
    ensures
        0 <= (y * w + x) * ch + c,
        (y * w + x) * ch + c < w * h * ch,
        y * w + x < w * h,
{
    assert(0 <= (y * w + x) * ch + c && (y * w + x) * ch + c < w * h * ch && y * w + x < w
        * h) by (nonlinear_arith)
        requires
            0 <= x < w,
            0 <= y < h,
            0 <= c < ch,
    ;
}

/// Each sample at or above the cutoff becomes `maxval`, every other sample
/// becomes zero.
pub open spec fn spec_threshold(s: Seq<u8>, cutoff: u8, maxval: u8) -> Seq<u8> {
    Seq::new(s.len(), |i: int| if s[i] >= cutoff { maxval } else { 0u8 })
}

/// Isolate channel `c` of `src` into a new single-channel image of the same
/// width and height. Fails with `BadChannel` exactly when `src` has no
/// channel `c`.
pub fn extract_channel(src: &Image, c: usize) -> (r: Result<Image, ImageError>)
    requires
        src.wf(),
    ensures
        match r {
            Ok(out) => {
                &&& c < src.spec_channels()
                &&& out.wf()
                &&& out.spec_width() == src.spec_width()
                &&& out.spec_height() == src.spec_height()
                &&& out.spec_channels() == 1
                &&& out@.len() == src.spec_width() * src.spec_height()
                &&& forall|i: int|
                    0 <= i < out@.len() ==> out@[i] == src@[i * src.spec_channels() + c]
            },
            Err(e) => e == ImageError::BadChannel && c >= src.spec_channels(),
        },
{
    if c >= src.channels {
        return Err(ImageError::BadChannel);
    }
    let w = src.width;
    let h = src.height;
    let ch = src.channels;
    let n = src.data.len();
    proof {
        lemma_mul_le_total(w as int, h as int, ch as int);
    }
    let total = w * h;
    let mut out_data: Vec<u8> = Vec::new();
    let mut i: usize = 0;
    while i < total
        invariant
            src.wf(),
            c < ch,
            w == src.spec_width(),
            h == src.spec_height(),
            ch == src.spec_channels(),
            total == w * h,
            total <= src@.len(),
            src@.len() <= usize::MAX,
            i <= total,
            out_data@.len() == i,
            forall|j: int| 0 <= j < i ==> out_data@[j] == src@[j * ch + c],
        decreases total - i,
    {
        assert(i * ch + c < w * h * ch && i * ch + c >= 0) by (nonlinear_arith)
            requires
                0 <= i < total,
                total == w * h,
                0 <= c < ch,
        ;
        out_data.push(src.data[i * ch + c]);
        i = i + 1;
    }
    Ok(Image { width: w, height: h, channels: 1, data: out_data })
}

/// Binarize every sample of `src` at the `cutoff` intensity: a sample at or
/// above the cutoff becomes `maxval`, every other sample becomes zero. The
/// dimensions are kept.
pub fn threshold_binary(src: &Image, cutoff: u8, maxval: u8) -> (out: Image)
    requires
        src.wf(),
    ensures
        out.wf(),
        out.spec_width() == src.spec_width(),
        out.spec_height() == src.spec_height(),
        out.spec_channels() == src.spec_channels(),
        out@ == spec_threshold(src@, cutoff, maxval),
{
    let total = src.data.len();
    let mut out_data: Vec<u8> = Vec::new();
    let mut i: usize = 0;
    while i < total
        invariant
            total == src@.len(),
            i <= total,
            out_data@.len() == i,
            forall|j: int|
                0 <= j < i ==> out_data@[j] == (if src@[j] >= cutoff {
                    maxval
                } else {
                    0u8
                }),
        decreases total - i,
    {
        let v = src.data[i];
        if v >= cutoff {
            out_data.push(maxval);
        } else {
            out_data.push(0);
        }
        i = i + 1;
    }
    assert(out_data@ =~= spec_threshold(src@, cutoff, maxval));
    Image { width: src.width, height: src.height, channels: src.channels, data: out_data }
}

/// Multiplying both sides of an inequality by a non-negative factor keeps
/// the inequality.
proof fn lemma_mul_le_mono(a: int, b: int, m: int)
    requires
        a <= b,
        0 <= m,
    ensures
        a * m <= b * m,
{
    assert(a * m <= b * m) by (nonlinear_arith)
        requires
            a <= b,
            0 <= m,
    ;
}

/// Crop the rectangle `r` out of `src` into a new image of `r`'s size with
/// the same channels. Fails with `OutOfBounds` exactly when the rectangle
/// does not lie fully inside the image. The source is never changed.
#[verifier::loop_isolation(false)]
pub fn roi(src: &Image, r: Rect) -> (out: Result<Image, ImageError>)
    requires
        src.wf(),
    ensures
        match out {
            Ok(img) => {
                &&& r.x + r.width <= src.spec_width()
                &&& r.y + r.height <= src.spec_height()
                &&& img.wf()
                &&& img.spec_width() == r.width
                &&& img.spec_height() == r.height
                &&& img.spec_channels() == src.spec_channels()
                &&& forall|x: int, y: int, c: int|
                    0 <= x < r.width && 0 <= y < r.height && 0 <= c < src.spec_channels()
                        ==> #[trigger] img.spec_pix(x, y, c) == src.spec_pix(
                        r.x + x,
                        r.y + y,
                        c,
                    )
            },
            Err(e) => {
                &&& e == ImageError::OutOfBounds
                &&& (r.x + r.width > src.spec_width() || r.y + r.height > src.spec_height())
            },
        },
{
    if r.x > src.width || r.width > src.width - r.x || r.y > src.height || r.height > src.height
        - r.y {
        return Err(ImageError::OutOfBounds);
    }
    let w = src.width;
    let h = src.height;
    let ch = src.channels;
    let n = src.data.len();
    let rw = r.width;
    let rh = r.height;
    let ghost wi = w as int;
    let ghost chi = ch as int;
    let ghost rwi = rw as int;
    let mut out_data: Vec<u8> = Vec::new();
    let mut y: usize = 0;
    proof {
        assert((0 * rwi) * chi == 0) by (nonlinear_arith);
    }
    while y < rh
        invariant
            y <= rh,
            out_data@.len() == y * rw * ch,
            forall|y2: int, x2: int, c2: int|
                0 <= y2 < y && 0 <= x2 < rwi && 0 <= c2 < chi ==> #[trigger] pix_at(
                    out_data@,
                    rwi,
                    chi,
                    x2,
                    y2,
                    c2,
                ) == pix_at(src@, wi, chi, r.x + x2, r.y + y2, c2),
        decreases rh - y,
    {
        let mut x: usize = 0;
        while x < rw
            invariant
                x <= rw,
                out_data@.len() == (y * rw + x) * ch,
                forall|y2: int, x2: int, c2: int|
                    0 <= y2 < y && 0 <= x2 < rwi && 0 <= c2 < chi ==> #[trigger] pix_at(
                        out_data@,
                        rwi,
                        chi,
                        x2,
                        y2,
                        c2,
                    ) == pix_at(src@, wi, chi, r.x + x2, r.y + y2, c2),
                forall|x2: int, c2: int|
                    0 <= x2 < x && 0 <= c2 < chi ==> #[trigger] pix_at(
                        out_data@,
                        rwi,
                        chi,
                        x2,
                        y as int,
                        c2,
                    ) == pix_at(src@, wi, chi, r.x + x2, r.y + y, c2),
            decreases rw - x,
        {
            let mut c: usize = 0;
            while c < ch
                invariant
                    c <= ch,
                    out_data@.len() == (y * rw + x) * ch + c,
                    forall|y2: int, x2: int, c2: int|
                        0 <= y2 < y && 0 <= x2 < rwi && 0 <= c2 < chi ==> #[trigger] pix_at(
                            out_data@,
                            rwi,
                            chi,
                            x2,
                            y2,
                            c2,
                        ) == pix_at(src@, wi, chi, r.x + x2, r.y + y2, c2),
                    forall|x2: int, c2: int|
                        0 <= x2 < x && 0 <= c2 < chi ==> #[trigger] pix_at(
                            out_data@,
                            rwi,
                            chi,
                            x2,
                            y as int,
                            c2,
                        ) == pix_at(src@, wi, chi, r.x + x2, r.y + y, c2),
                    forall|c2: int|
                        0 <= c2 < c ==> #[trigger] pix_at(
                            out_data@,
                            rwi,
                            chi,
                            x as int,
                            y as int,
                            c2,
                        ) == pix_at(src@, wi, chi, r.x + x, r.y + y, c2),
                decreases ch - c,
            {
                proof {
                    lemma_sample_index_bound(
                        r.x + x,
                        r.y + y,
                        c as int,
                        wi,
                        h as int,
                        chi,
                    );
                    lemma_mul_le_total(wi, h as int, chi);
                }
                let ghost before = out_data@;
                out_data.push(src.data[((r.y + y) * w + (r.x + x)) * ch + c]);
                proof {
                    let yi = y as int;
                    let xi = x as int;
                    let ci = c as int;
                    assert forall|y2: int, x2: int, c2: int|
                        0 <= y2 < y && 0 <= x2 < rwi && 0 <= c2 < chi implies #[trigger] pix_at(
                        out_data@,
                        rwi,
                        chi,
                        x2,
                        y2,
                        c2,
                    ) == pix_at(src@, wi, chi, r.x + x2, r.y + y2, c2) by {
                        lemma_sample_index_bound(x2, y2, c2, rwi, yi, chi);
                        assert((rwi * yi) * chi == (yi * rwi) * chi) by (nonlinear_arith);
                        lemma_mul_le_mono(yi * rwi, yi * rwi + xi, chi);
                        assert(0 <= (y2 * rwi + x2) * chi + c2 < before.len());
                        assert(pix_at(out_data@, rwi, chi, x2, y2, c2) == pix_at(
                            before,
                            rwi,
                            chi,
                            x2,
                            y2,
                            c2,
                        ));
                    }
                    assert forall|x2: int, c2: int|
                        0 <= x2 < x && 0 <= c2 < chi implies #[trigger] pix_at(
                        out_data@,
                        rwi,
                        chi,
                        x2,
                        y as int,
                        c2,
                    ) == pix_at(src@, wi, chi, r.x + x2, r.y + y, c2) by {
                        assert((yi * rwi + x2 + 1) * chi == (yi * rwi + x2) * chi + chi)
                            by (nonlinear_arith);
                        assert(0 <= (yi * rwi + x2) * chi + c2) by (nonlinear_arith)
                            requires
                                0 <= yi && 0 <= rwi && 0 <= x2 && 0 <= c2 && 0 <= chi,
                        ;
                        lemma_mul_le_mono(yi * rwi + x2 + 1, yi * rwi + xi, chi);
                        assert(0 <= (yi * rwi + x2) * chi + c2 < before.len());
                        assert(pix_at(out_data@, rwi, chi, x2, yi, c2) == pix_at(
                            before,
                            rwi,
                            chi,
                            x2,
                            yi,
                            c2,
                        ));
                    }
                    assert forall|c2: int| 0 <= c2 < c + 1 implies #[trigger] pix_at(
                        out_data@,
                        rwi,
                        chi,
                        xi,
                        yi,
                        c2,
                    ) == pix_at(src@, wi, chi, r.x + xi, r.y + yi, c2) by {
                        assert(0 <= (yi * rwi + xi) * chi + c2) by (nonlinear_arith)
                            requires
                                0 <= yi && 0 <= rwi && 0 <= xi && 0 <= c2 && 0 <= chi,
                        ;
                        if c2 < ci {
                            assert(pix_at(out_data@, rwi, chi, xi, yi, c2) == pix_at(
                                before,
                                rwi,
                                chi,
                                xi,
                                yi,
                                c2,
                            ));
                        } else {
                            assert(pix_at(out_data@, rwi, chi, xi, yi, c2) == src@[((r.y + yi)
                                * wi + (r.x + xi)) * chi + c2]);
                        }
                    }
                }
                c = c + 1;
            }
            proof {
                assert((y as int * rwi + x as int + 1) * chi == (y as int * rwi + x as int) * chi
                    + chi) by (nonlinear_arith);
            }
            x = x + 1;
        }
        proof {
            assert(((y as int + 1) * rwi) * chi == (y as int * rwi + rwi) * chi)
                by (nonlinear_arith);
        }
        y = y + 1;
    }
    let img = Image { width: rw, height: rh, channels: ch, data: out_data };
    proof {
        assert(rh * rw * ch == rw * rh * ch) by (nonlinear_arith);
        assert forall|x: int, y: int, c: int|
            0 <= x < r.width && 0 <= y < r.height && 0 <= c < src.spec_channels()
            implies #[trigger] img.spec_pix(x, y, c) == src.spec_pix(r.x + x, r.y + y, c) by {
            assert(pix_at(out_data@, rwi, chi, x, y, c) == pix_at(
                src@,
                wi,
                chi,
                r.x + x,
                r.y + y,
                c,
            ));
        }
    }
    Ok(img)
}

/// A nearest-neighbour sample coordinate always falls inside the source
/// extent.
proof fn lemma_scale_index(y: int, sh: int, dh: int)
    requires
        0 <= y < dh,
        0 < sh,
    ensures
        0 <= y * sh / dh < sh,
{
    assert(0 <= y * sh && y * sh < dh * sh) by (nonlinear_arith)
        requires
            0 <= y < dh,
            0 < sh,
    ;
    lemma_multiply_divide_lt(y * sh, dh, sh);
    lemma_div_pos_is_pos(y * sh, dh);
}

/// The product of two values that fit in 64 bits fits in 128 bits.
proof fn lemma_mul_fits_u128(a: int, b: int)
    requires
        0 <= a <= 0xFFFF_FFFF_FFFF_FFFF,
        0 <= b <= 0xFFFF_FFFF_FFFF_FFFF,
    ensures
        a * b <= 0xFFFF_FFFF_FFFF_FFFF_FFFF_FFFF_FFFF_FFFF,
{
    assert(a * b <= 0xFFFF_FFFF_FFFF_FFFF * 0xFFFF_FFFF_FFFF_FFFF) by (nonlinear_arith)
        requires
            0 <= a <= 0xFFFF_FFFF_FFFF_FFFF,
            0 <= b <= 0xFFFF_FFFF_FFFF_FFFF,
    ;
}

/// Resize `frame_b` in place so that its pixel grid matches `frame_a`'s.
///
/// When the two sizes already agree this is a no-op: it returns `Ok` and
/// leaves `frame_b` bit-identical, so repeating the call changes nothing.
/// Otherwise `frame_b` is rebuilt on `frame_a`'s grid by nearest-neighbour
/// sampling of its own old samples, keeping its channel count: the new
/// sample of column `x`, row `y` comes from old column
/// `x * old_width / new_width`, old row `y * old_height / new_height`.
/// Fails with `EmptyImage` exactly when pixels would have to be sampled out
/// of an image that has none; `frame_b` is then left unchanged.
#[verifier::loop_isolation(false)]
pub fn resize_frames_to_match(frame_a: &Image, frame_b: &mut Image) -> (r: Result<
    (),
    ImageError,
>)
    requires
        frame_a.wf(),
        old(frame_b).wf(),
    ensures
        old(frame_b).same_size(frame_a) ==> r is Ok && *final(frame_b) == *old(frame_b),
        !old(frame_b).same_size(frame_a) && frame_a.spec_width() > 0 && frame_a.spec_height() > 0
            && (old(frame_b).spec_width() == 0 || old(frame_b).spec_height() == 0) ==> r
            == Result::<(), ImageError>::Err(ImageError::EmptyImage) && *final(frame_b) == *old(
            frame_b,
        ),
        !old(frame_b).same_size(frame_a) && !(frame_a.spec_width() > 0 && frame_a.spec_height()
            > 0 && (old(frame_b).spec_width() == 0 || old(frame_b).spec_height() == 0)) ==> ({
            &&& r is Ok
            &&& final(frame_b).wf()
            &&& final(frame_b).spec_width() == frame_a.spec_width()
            &&& final(frame_b).spec_height() == frame_a.spec_height()
            &&& final(frame_b).spec_channels() == old(frame_b).spec_channels()
            &&& forall|x: int, y: int, c: int|
                0 <= x < frame_a.spec_width() && 0 <= y < frame_a.spec_height() && 0 <= c < old(
                    frame_b,
                ).spec_channels() ==> #[trigger] final(frame_b).spec_pix(x, y, c) == old(
                    frame_b,
                ).spec_pix(
                    x * old(frame_b).spec_width() / frame_a.spec_width() as int,
                    y * old(frame_b).spec_height() / frame_a.spec_height() as int,
                    c,
                )
        }),
{
    if frame_a.width == frame_b.width && frame_a.height == frame_b.height {
        return Ok(());
    }
    let dw = frame_a.width;
    let dh = frame_a.height;
    let sw = frame_b.width;
    let sh = frame_b.height;
    let ch = frame_b.channels;
    if dw > 0 && dh > 0 && (sw == 0 || sh == 0) {
        return Err(ImageError::EmptyImage);
    }
    let ghost dwi = dw as int;
    let ghost dhi = dh as int;
    let ghost swi = sw as int;
    let ghost shi = sh as int;
    let ghost chi = ch as int;
    if dw == 0 || dh == 0 {
        proof {
            assert((dwi * dhi) * chi == 0) by (nonlinear_arith)
                requires
                    dwi == 0 || dhi == 0,
            ;
        }
        frame_b.width = dw;
        frame_b.height = dh;
        frame_b.data = Vec::new();
        return Ok(());
    }
    let nb = frame_b.data.len();
    let mut out_data: Vec<u8> = Vec::new();
    let mut y: usize = 0;
    proof {
        assert((0 * dwi) * chi == 0) by (nonlinear_arith);
    }
    while y < dh
        invariant
            y <= dh,
            out_data@.len() == y * dw * ch,
            forall|y2: int, x2: int, c2: int|
                0 <= y2 < y && 0 <= x2 < dwi && 0 <= c2 < chi ==> #[trigger] pix_at(
                    out_data@,
                    dwi,
                    chi,
                    x2,
                    y2,
                    c2,
                ) == pix_at(frame_b@, swi, chi, x2 * swi / dwi, y2 * shi / dhi, c2),
        decreases dh - y,
    {
        proof {
            lemma_mul_fits_u128(y as int, shi);
            lemma_scale_index(y as int, shi, dhi);
        }
        let sy = ((y as u128) * (sh as u128) / (dh as u128)) as usize;
        assert(sy == y as int * shi / dhi);
        let mut x: usize = 0;
        while x < dw
            invariant
                x <= dw,
                out_data@.len() == (y * dw + x) * ch,
                forall|y2: int, x2: int, c2: int|
                    0 <= y2 < y && 0 <= x2 < dwi && 0 <= c2 < chi ==> #[trigger] pix_at(
                        out_data@,
                        dwi,
                        chi,
                        x2,
                        y2,
                        c2,
                    ) == pix_at(frame_b@, swi, chi, x2 * swi / dwi, y2 * shi / dhi, c2),
                forall|x2: int, c2: int|
                    0 <= x2 < x && 0 <= c2 < chi ==> #[trigger] pix_at(
                        out_data@,
                        dwi,
                        chi,
                        x2,
                        y as int,
                        c2,
                    ) == pix_at(frame_b@, swi, chi, x2 * swi / dwi, y as int * shi / dhi, c2),
            decreases dw - x,
        {
            proof {
                lemma_mul_fits_u128(x as int, swi);
                lemma_scale_index(x as int, swi, dwi);
            }
            let sx = ((x as u128) * (sw as u128) / (dw as u128)) as usize;
            assert(sx == x as int * swi / dwi);
            let mut c: usize = 0;
            while c < ch
                invariant
                    c <= ch,
                    out_data@.len() == (y * dw + x) * ch + c,
                    forall|y2: int, x2: int, c2: int|
                        0 <= y2 < y && 0 <= x2 < dwi && 0 <= c2 < chi ==> #[trigger] pix_at(
                            out_data@,
                            dwi,
                            chi,
                            x2,
                            y2,
                            c2,
                        ) == pix_at(frame_b@, swi, chi, x2 * swi / dwi, y2 * shi / dhi, c2),
                    forall|x2: int, c2: int|
                        0 <= x2 < x && 0 <= c2 < chi ==> #[trigger] pix_at(
                            out_data@,
                            dwi,
                            chi,
                            x2,
                            y as int,
                            c2,
                        ) == pix_at(frame_b@, swi, chi, x2 * swi / dwi, y as int * shi / dhi, c2),
                    forall|c2: int|
                        0 <= c2 < c ==> #[trigger] pix_at(
                            out_data@,
                            dwi,
                            chi,
                            x as int,
                            y as int,
                            c2,
                        ) == pix_at(
                            frame_b@,
                            swi,
                            chi,
                            x as int * swi / dwi,
                            y as int * shi / dhi,
                            c2,
                        ),
                decreases ch - c,
            {
                proof {
                    lemma_sample_index_bound(sx as int, sy as int, c as int, swi, shi, chi);
                    lemma_mul_le_total(swi, shi, chi);
                }
                let ghost before = out_data@;
                out_data.push(frame_b.data[(sy * sw + sx) * ch + c]);
                proof {
                    let yi = y as int;
                    let xi = x as int;
                    let ci = c as int;
                    assert forall|y2: int, x2: int, c2: int|
                        0 <= y2 < y && 0 <= x2 < dwi && 0 <= c2 < chi implies #[trigger] pix_at(
                        out_data@,
                        dwi,
                        chi,
                        x2,
                        y2,
                        c2,
                    ) == pix_at(frame_b@, swi, chi, x2 * swi / dwi, y2 * shi / dhi, c2) by {
                        lemma_sample_index_bound(x2, y2, c2, dwi, yi, chi);
                        assert((dwi * yi) * chi == (yi * dwi) * chi) by (nonlinear_arith);
                        lemma_mul_le_mono(yi * dwi, yi * dwi + xi, chi);
                        assert(0 <= (y2 * dwi + x2) * chi + c2 < before.len());
                        assert(pix_at(out_data@, dwi, chi, x2, y2, c2) == pix_at(
                            before,
                            dwi,
                            chi,
                            x2,
                            y2,
                            c2,
                        ));
                    }
                    assert forall|x2: int, c2: int|
                        0 <= x2 < x && 0 <= c2 < chi implies #[trigger] pix_at(
                        out_data@,
                        dwi,
                        chi,
                        x2,
                        y as int,
                        c2,
                    ) == pix_at(frame_b@, swi, chi, x2 * swi / dwi, y as int * shi / dhi, c2) by {
                        assert((yi * dwi + x2 + 1) * chi == (yi * dwi + x2) * chi + chi)
                            by (nonlinear_arith);
                        assert(0 <= (yi * dwi + x2) * chi + c2) by (nonlinear_arith)
                            requires
                                0 <= yi && 0 <= dwi && 0 <= x2 && 0 <= c2 && 0 <= chi,
                        ;
                        lemma_mul_le_mono(yi * dwi + x2 + 1, yi * dwi + xi, chi);
                        assert(0 <= (yi * dwi + x2) * chi + c2 < before.len());
                        assert(pix_at(out_data@, dwi, chi, x2, yi, c2) == pix_at(
                            before,
                            dwi,
                            chi,
                            x2,
                            yi,
                            c2,
                        ));
                    }
                    assert forall|c2: int| 0 <= c2 < c + 1 implies #[trigger] pix_at(
                        out_data@,
                        dwi,
                        chi,
                        xi,
                        yi,
                        c2,
                    ) == pix_at(frame_b@, swi, chi, xi * swi / dwi, yi * shi / dhi, c2) by {
                        assert(0 <= (yi * dwi + xi) * chi + c2) by (nonlinear_arith)
                            requires
                                0 <= yi && 0 <= dwi && 0 <= xi && 0 <= c2 && 0 <= chi,
                        ;
                        if c2 < ci {
                            assert(pix_at(out_data@, dwi, chi, xi, yi, c2) == pix_at(
                                before,
                                dwi,
                                chi,
                                xi,
                                yi,
                                c2,
                            ));
                        } else {
                            assert(pix_at(out_data@, dwi, chi, xi, yi, c2) == frame_b@[((sy as int)
                                * swi + (sx as int)) * chi + c2]);
                        }
                    }
                }
                c = c + 1;
            }
            proof {
                assert((y as int * dwi + x as int + 1) * chi == (y as int * dwi + x as int) * chi
                    + chi) by (nonlinear_arith);
            }
            x = x + 1;
        }
        proof {
            assert(((y as int + 1) * dwi) * chi == (y as int * dwi + dwi) * chi)
                by (nonlinear_arith);
        }
        y = y + 1;
    }
    proof {
        assert((dh as int * dwi) * chi == (dwi * dh as int) * chi) by (nonlinear_arith);
    }
    frame_b.width = dw;
    frame_b.height = dh;
    frame_b.data = out_data;
    Ok(())
}

/// The square of an integer.
pub open spec fn spec_sq(d: int) -> int {
    d * d
}

/// The sum over all positions of the squared difference between the
/// samples of two equally long sample sequences.
pub open spec fn spec_sq_diff_sum(a: Seq<u8>, b: Seq<u8>) -> int
    recommends
        a.len() == b.len(),
    decreases a.len(),
{
    if a.len() == 0 {
        0
    } else {
        spec_sq_diff_sum(a.drop_last(), b.drop_last()) + spec_sq(a.last() - b.last())
    }
}

/// A distance is never negative.
pub proof fn lemma_distance_nonneg(a: Seq<u8>, b: Seq<u8>)
    ensures
        spec_sq_diff_sum(a, b) >= 0,
    decreases a.len(),
{
    if a.len() > 0 {
        lemma_distance_nonneg(a.drop_last(), b.drop_last());
        assert(spec_sq(a.last() - b.last()) >= 0) by (nonlinear_arith);
    }
}

/// The distance from any image to itself is zero.
pub proof fn lemma_distance_self_zero(a: Seq<u8>)
    ensures
        spec_sq_diff_sum(a, a) == 0,
    decreases a.len(),
{
    if a.len() > 0 {
        lemma_distance_self_zero(a.drop_last());
    }
}

/// The distance is symmetric: swapping the two images does not change it.
pub proof fn lemma_distance_symmetric(a: Seq<u8>, b: Seq<u8>)
    requires
        a.len() == b.len(),
    ensures
        spec_sq_diff_sum(a, b) == spec_sq_diff_sum(b, a),
    decreases a.len(),
{
    if a.len() > 0 {
        lemma_distance_symmetric(a.drop_last(), b.drop_last());
        assert(spec_sq(a.last() - b.last()) == spec_sq(b.last() - a.last())) by (nonlinear_arith);
    }
}

/// The scalar distance between two images of identical dimensions: the sum
/// of the squared differences of their samples. Fails with `SizeMismatch`
/// exactly when width, height or channel count differ. The equivalent of a
/// bound `t` on the euclidean norm of the difference is the bound `t * t`
/// on this sum.
#[verifier::loop_isolation(false)]
pub fn distance(a: &Image, b: &Image) -> (r: Result<u128, ImageError>)
    requires
        a.wf(),
        b.wf(),
    ensures
        match r {
            Ok(d) => {
                &&& a.same_size(b)
                &&& a.spec_channels() == b.spec_channels()
                &&& d == spec_sq_diff_sum(a@, b@)
            },
            Err(e) => {
                &&& e == ImageError::SizeMismatch
                &&& !(a.same_size(b) && a.spec_channels() == b.spec_channels())
            },
        },
{
    if a.width != b.width || a.height != b.height || a.channels != b.channels {
        return Err(ImageError::SizeMismatch);
    }
    let n = a.data.len();
    assert(b@.len() == n);
    let mut acc: u128 = 0;
    let mut i: usize = 0;
    while i < n
        invariant
            i <= n,
            acc <= i * 65025,
            acc == spec_sq_diff_sum(a@.take(i as int), b@.take(i as int)),
        decreases n - i,
    {
        let av = a.data[i];
        let bv = b.data[i];
        let d: u8 = if av >= bv {
            av - bv
        } else {
            bv - av
        };
        proof {
            assert(d as int * d as int == (av as int - bv as int) * (av as int - bv as int) && d
                as int * d as int <= 65025) by (nonlinear_arith)
                requires
                    d as int == if av as int >= bv as int {
                        av as int - bv as int
                    } else {
                        bv as int - av as int
                    },
                    0 <= av as int <= 255,
                    0 <= bv as int <= 255,
            ;
            assert(a@.take(i + 1).drop_last() =~= a@.take(i as int));
            assert(b@.take(i + 1).drop_last() =~= b@.take(i as int));
        }
        let sq: u128 = (d as u128) * (d as u128);
        acc = acc + sq;
        i = i + 1;
    }
    assert(a@.take(n as int) =~= a@);
    assert(b@.take(n as int) =~= b@);
    Ok(acc)
}

/// Whether two images of identical dimensions are similar: their distance
/// stays under the given threshold. Fails with `SizeMismatch` exactly when
/// the dimensions differ.
pub fn similar(a: &Image, b: &Image, threshold: u64) -> (r: Result<bool, ImageError>)
    requires
        a.wf(),
        b.wf(),
    ensures
        match r {
            Ok(s) => {
                &&& a.same_size(b)
                &&& a.spec_channels() == b.spec_channels()
                &&& s == (spec_sq_diff_sum(a@, b@) < threshold)
            },
            Err(e) => {
                &&& e == ImageError::SizeMismatch
                &&& !(a.same_size(b) && a.spec_channels() == b.spec_channels())
            },
        },
{
    let d = distance(a, b)?;
    Ok(d < threshold as u128)
}

} // verus!
