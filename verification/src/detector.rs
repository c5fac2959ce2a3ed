use crate::image::{
    distance, extract_channel, resize_frames_to_match, roi, spec_sq_diff_sum, Image, ImageError,
    Rect,
};
use vstd::arithmetic::div_mod::{
    lemma_div_pos_is_pos, lemma_fundamental_div_mod, lemma_mod_division_less_than_divisor,
    lemma_multiply_divide_le, lemma_multiply_divide_lt,
};
use vstd::prelude::*;

verus! {

/// A fraction `num / den` of a pixel extent, at most one.
#[derive(Clone, Copy, Debug, PartialEq, Eq, Structural)]
pub struct Frac {
    pub num: u32,
    pub den: u32,
}

impl Frac {
    pub open spec fn wf(&self) -> bool {
        0 < self.den && self.num <= self.den
    }

    /// The fraction applied to a pixel extent, rounded down.
    pub open spec fn spec_of(&self, dim: int) -> int {
        dim * self.num / self.den as int
    }

    pub fn new(num: u32, den: u32) -> (r: Frac)
        requires
            0 < den,
            num <= den,
        ensures
            r.num == num,
            r.den == den,
            r.wf(),
    {
        Frac { num, den }
    }

    /// Apply the fraction to a pixel extent.
    pub fn of(&self, dim: usize) -> (r: usize)
        requires
            self.wf(),
        ensures
            r == self.spec_of(dim as int),
            r <= dim,
    {
        proof {
            assert(0 <= dim as int * self.num as int && dim as int * self.num as int <= self.den
                as int * dim as int) by (nonlinear_arith)
                requires
                    0 <= dim as int,
                    0 <= self.num <= self.den,
            ;
            lemma_multiply_divide_le(dim as int * self.num as int, self.den as int, dim as int);
            lemma_div_pos_is_pos(dim as int * self.num as int, self.den as int);
            assert(dim as int * self.num as int <= 0xFFFF_FFFF_FFFF_FFFF
                * 0xFFFF_FFFF) by (nonlinear_arith)
                requires
                    0 <= dim as int <= 0xFFFF_FFFF_FFFF_FFFF,
                    0 <= self.num as int <= 0xFFFF_FFFF,
            ;
        }
        ((dim as u128) * (self.num as u128) / (self.den as u128)) as usize
    }
}

/// The static parameters of one detector: where its region of interest lies
/// as fractions of the frame size, which channel it reads, the binarization
/// cutoff, and the distance threshold under which the region counts as
/// matching the reference image.
#[derive(Clone, Copy, Debug, PartialEq, Eq, Structural)]
pub struct DetectorSpec {
    /// Horizontal center of the region, as a fraction of the frame width.
    pub center_x: Frac,
    /// Vertical center of the region, as a fraction of the frame height.
    pub center_y: Frac,
    /// Width of the region, as a fraction of the frame width.
    pub width_frac: Frac,
    /// Height of the region, as a fraction of the frame height.
    pub height_frac: Frac,
    /// The channel the detector reads out of the frame.
    pub channel: usize,
    /// Samples at or above this intensity binarize to `maxval`.
    pub cutoff: u8,
    /// The intensity a sample above the cutoff binarizes to.
    pub maxval: u8,
    /// The region matches the reference when the squared-difference distance
    /// stays under this threshold.
    pub distance_threshold: u64,
}

impl DetectorSpec {
    pub open spec fn wf(&self) -> bool {
        &&& self.center_x.wf()
        &&& self.center_y.wf()
        &&& self.width_frac.wf()
        &&& self.height_frac.wf()
    }

    /// The region of interest on a `w` by `h` frame: a rectangle of the
    /// configured fractional size centred at the configured fractional
    /// position (the centre moves left and up by half the region when the
    /// region's extent is odd).
    pub open spec fn spec_rect(&self, w: int, h: int) -> Rect {
        let rw = self.width_frac.spec_of(w);
        let rh = self.height_frac.spec_of(h);
        let x = self.center_x.spec_of(w) - rw / 2;
        let y = self.center_y.spec_of(h) - rh / 2;
        Rect { x: x as usize, y: y as usize, width: rw as usize, height: rh as usize }
    }

    /// Whether the region of interest lies fully inside a `w` by `h` frame.
    pub open spec fn spec_roi_fits(&self, w: int, h: int) -> bool {
        let cx = self.center_x.spec_of(w);
        let cy = self.center_y.spec_of(h);
        let rw = self.width_frac.spec_of(w);
        let rh = self.height_frac.spec_of(h);
        &&& rw / 2 <= cx
        &&& cx - rw / 2 + rw <= w
        &&& rh / 2 <= cy
        &&& cy - rh / 2 + rh <= h
    }

    /// Compute the region of interest for a frame of the given size. Fails
    /// with `OutOfBounds` exactly when the rectangle would not lie fully
    /// inside the frame.
    pub fn compute_roi(&self, width: usize, height: usize) -> (r: Result<Rect, ImageError>)
        requires
            self.wf(),
        ensures
            r is Ok <==> self.spec_roi_fits(width as int, height as int),
            r matches Ok(rect) ==> rect == self.spec_rect(width as int, height as int),
            r matches Err(e) ==> e == ImageError::OutOfBounds,
    {
        let cx = self.center_x.of(width);
        let cy = self.center_y.of(height);
        let rw = self.width_frac.of(width);
        let rh = self.height_frac.of(height);
        let half_w = rw / 2;
        let half_h = rh / 2;
        if cx < half_w || cy < half_h {
            return Err(ImageError::OutOfBounds);
        }
        let x = cx - half_w;
        let y = cy - half_h;
        if rw > width - x || rh > height - y {
            return Err(ImageError::OutOfBounds);
        }
        Ok(Rect { x, y, width: rw, height: rh })
    }
}

/// The binarized single-channel content of a rectangular frame region: for
/// each pixel of the region, row by row, `maxval` where the frame's sample
/// of the chosen channel is at or above the cutoff, zero elsewhere.
pub open spec fn spec_region_binarized(
    frame: Image,
    rect: Rect,
    channel: int,
    cutoff: u8,
    maxval: u8,
) -> Seq<u8> {
    Seq::new(
        (rect.height * rect.width) as nat,
        |i: int|
            {
                let y = i / rect.width as int;
                let x = i % rect.width as int;
                if frame.spec_pix(rect.x + x, rect.y + y, channel) >= cutoff {
                    maxval
                } else {
                    0u8
                }
            },
    )
}

/// One per-frame visual detector: its static parameters together with the
/// reference image its region of interest is compared against. The
/// reference is kept single-channel and is lazily resized in place the
/// first time a frame's region turns out to have another size.
pub struct Detector {
    pub params: DetectorSpec,
    pub reference: Image,
}

impl Detector {
    pub open spec fn wf(&self) -> bool {
        &&& self.params.wf()
        &&& self.reference.wf()
        &&& self.reference.spec_channels() == 1
    }

    pub fn new(params: DetectorSpec, reference: Image) -> (r: Detector)
        requires
            params.wf(),
            reference.wf(),
            reference.spec_channels() == 1,
        ensures
            r.params == params,
            r.reference == reference,
            r.wf(),
    {
        Detector { params, reference }
    }

    /// What a call of `evaluate` promises: how the result and the state
    /// after the call relate to the state before it and to the frame.
    ///
    /// On success the result says whether the region of interest, read on
    /// the configured channel and binarized at the configured cutoff, lies
    /// within the configured distance of the reference image, which by then
    /// has the region's size (untouched when it already had it, nearest-
    /// neighbour resized otherwise). Each error names its exact cause: the
    /// region does not fit the frame, the frame lacks the configured
    /// channel, or a reference without pixels would have to be resampled;
    /// the detector is then left unchanged.
    pub open spec fn spec_evaluate_post(
        old_d: Detector,
        new_d: Detector,
        frame: Image,
        r: Result<bool, ImageError>,
    ) -> bool {
        let w = frame.spec_width() as int;
        let h = frame.spec_height() as int;
        let fits = old_d.params.spec_roi_fits(w, h);
        let rect = old_d.params.spec_rect(w, h);
        let chan_ok = old_d.params.channel < frame.spec_channels();
        let ref_sized = old_d.reference.spec_width() == rect.width
            && old_d.reference.spec_height() == rect.height;
        let ref_empty = old_d.reference.spec_width() == 0 || old_d.reference.spec_height() == 0;
        &&& new_d.params == old_d.params
        &&& new_d.wf()
        &&& match r {
            Ok(b) => {
                &&& fits
                &&& chan_ok
                &&& new_d.reference.spec_width() == rect.width
                &&& new_d.reference.spec_height() == rect.height
                &&& (ref_sized ==> new_d.reference == old_d.reference)
                &&& (!ref_sized ==> forall|x: int, y: int|
                    0 <= x < rect.width && 0 <= y < rect.height ==> #[trigger] new_d.reference.spec_pix(
                        x,
                        y,
                        0,
                    ) == old_d.reference.spec_pix(
                        x * old_d.reference.spec_width() / rect.width as int,
                        y * old_d.reference.spec_height() / rect.height as int,
                        0,
                    ))
                &&& b == (spec_sq_diff_sum(
                    spec_region_binarized(
                        frame,
                        rect,
                        old_d.params.channel as int,
                        old_d.params.cutoff,
                        old_d.params.maxval,
                    ),
                    new_d.reference@,
                ) < old_d.params.distance_threshold)
            },
            Err(e) => {
                &&& new_d == old_d
                &&& (e == ImageError::OutOfBounds <==> !fits)
                &&& (e == ImageError::BadChannel <==> fits && !chan_ok)
                &&& (e == ImageError::EmptyImage <==> fits && chan_ok && !ref_sized && rect.width
                    > 0 && rect.height > 0 && ref_empty)
                &&& (e == ImageError::OutOfBounds || e == ImageError::BadChannel || e
                    == ImageError::EmptyImage)
            },
        }
    }

    /// Evaluate the detector on one frame: crop the region of interest,
    /// resize the stored reference to the region's size if they differ,
    /// isolate the configured channel, binarize it at the configured
    /// cutoff, and compare the result against the reference.
    pub fn evaluate(&mut self, frame: &Image) -> (r: Result<bool, ImageError>)
        requires
            old(self).wf(),
            frame.wf(),
        ensures
            Detector::spec_evaluate_post(*old(self), *final(self), *frame, r),
    {
        let rect = self.params.compute_roi(frame.width(), frame.height())?;
        if self.params.channel >= frame.channels() {
            return Err(ImageError::BadChannel);
        }
        let region = roi(frame, rect)?;
        resize_frames_to_match(&region, &mut self.reference)?;
        let chan = extract_channel(&region, self.params.channel)?;
        let thresh = crate::image::threshold_binary(&chan, self.params.cutoff, self.params.maxval);
        let d = distance(&thresh, &self.reference)?;
        proof {
            lemma_region_binarized_matches(
                thresh@,
                region,
                *frame,
                rect,
                self.params.channel as int,
                self.params.cutoff,
                self.params.maxval,
            );
        }
        Ok(d < self.params.distance_threshold as u128)
    }
}

/// A flat binarized single-channel buffer whose samples were extracted,
/// pixel by pixel, out of a cropped region reads back as the binarized
/// region of the frame the crop came from.
proof fn lemma_region_binarized_matches(
    thresh: Seq<u8>,
    region: Image,
    frame: Image,
    rect: Rect,
    channel: int,
    cutoff: u8,
    maxval: u8,
)
    requires
        region.wf(),
        frame.wf(),
        region.spec_width() == rect.width,
        region.spec_height() == rect.height,
        region.spec_channels() == frame.spec_channels(),
        0 <= channel < region.spec_channels(),
        rect.x + rect.width <= frame.spec_width(),
        rect.y + rect.height <= frame.spec_height(),
        forall|x: int, y: int, c: int|
            0 <= x < rect.width && 0 <= y < rect.height && 0 <= c < region.spec_channels()
                ==> #[trigger] region.spec_pix(x, y, c) == frame.spec_pix(rect.x + x, rect.y + y, c),
        thresh.len() == rect.width * rect.height,
        forall|i: int|
            0 <= i < thresh.len() ==> #[trigger] thresh[i] == (if region@[i
                * region.spec_channels() + channel] >= cutoff {
                maxval
            } else {
                0u8
            }),
    ensures
        thresh == spec_region_binarized(frame, rect, channel, cutoff, maxval),
{
    let rw = rect.width as int;
    let rh = rect.height as int;
    let ch = region.spec_channels() as int;
    let expected = spec_region_binarized(frame, rect, channel, cutoff, maxval);
    assert(rh * rw == rw * rh) by (nonlinear_arith);
    assert forall|i: int| 0 <= i < thresh.len() implies thresh[i] == expected[i] by {
        let y = i / rw;
        let x = i % rw;
        assert(rw > 0) by (nonlinear_arith)
            requires
                0 <= i < rw * rh,
                0 <= rw,
                0 <= rh,
        ;
        lemma_fundamental_div_mod(i, rw);
        lemma_mod_division_less_than_divisor(i, rw);
        lemma_div_pos_is_pos(i, rw);
        assert(i < rw * rh);
        lemma_multiply_divide_lt(i, rw, rh);
        assert(i == rw * y + x);
        assert(i * ch + channel == (y * rw + x) * ch + channel) by (nonlinear_arith)
            requires
                i == rw * y + x,
        ;
        assert(region@[i * ch + channel] == crate::image::pix_at(region@, rw, ch, x, y, channel));
        assert(region.spec_pix(x, y, channel) == frame.spec_pix(rect.x + x, rect.y + y, channel));
    }
    assert(thresh =~= expected);
}

} // verus!
