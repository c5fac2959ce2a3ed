use crate::action;
use crate::debounce::{DebounceRisingEdge, DEFAULT_COOLDOWN_MS};
use crate::detector::{spec_region_binarized, Detector, DetectorSpec, Frac};
use crate::image::{extract_channel, spec_sq_diff_sum, Image, ImageError};
use vstd::prelude::*;

verus! {

/// The channel of the frame the death-screen text is read from.
pub const RED_CHANNEL: usize = 2;

/// Samples at or above this intensity count as lit text.
pub const YOU_DIED_CUTOFF: u8 = 80;

/// The intensity a sample at or above the cutoff binarizes to.
pub const BINARY_MAX: u8 = 255;

/// The squared-difference distance under which the binarized region counts
/// as showing the death screen: the square of a euclidean-norm bound of
/// 5000. Similarity, not difference, signals the event: the detector is
/// true when the region matches the stored reference of the text.
pub const YOU_DIED_DISTANCE_THRESHOLD: u64 = 25_000_000;

/// The configuration of the death-screen watcher.
pub struct Config {
    /// The action to dispatch when the death screen appears.
    pub you_died: Option<action::Config>,
}

/// The fixed parameters of the death-screen detector: the games draw a dark
/// band with the death text in red over it, always around the same place,
/// so the detector reads a band centred slightly below the middle of the
/// frame, two fifths of its width and three twentieths of its height, on
/// the red channel.
pub open spec fn spec_you_died_params() -> DetectorSpec {
    DetectorSpec {
        center_x: Frac { num: 1, den: 2 },
        center_y: Frac { num: 21, den: 40 },
        width_frac: Frac { num: 2, den: 5 },
        height_frac: Frac { num: 3, den: 20 },
        channel: RED_CHANNEL,
        cutoff: YOU_DIED_CUTOFF,
        maxval: BINARY_MAX,
        distance_threshold: YOU_DIED_DISTANCE_THRESHOLD,
    }
}

/// The fixed parameters of the death-screen detector.
pub fn you_died_params() -> (r: DetectorSpec)
    ensures
        r == spec_you_died_params(),
        r.wf(),
{
    DetectorSpec {
        center_x: Frac::new(1, 2),
        center_y: Frac::new(21, 40),
        width_frac: Frac::new(2, 5),
        height_frac: Frac::new(3, 20),
        channel: RED_CHANNEL,
        cutoff: YOU_DIED_CUTOFF,
        maxval: BINARY_MAX,
        distance_threshold: YOU_DIED_DISTANCE_THRESHOLD,
    }
}

/// The death-screen watcher: detects the death text of the souls games in a
/// frame, debounces the noisy per-frame answer into single rising edges,
/// and says when the configured action should be dispatched.
pub struct DarkSouls {
    /// The configured action, if any.
    pub config: Config,
    /// Debounces the per-frame detection into one edge per death.
    pub you_died_debounce: DebounceRisingEdge,
    /// The detector with its stored reference of the death text.
    pub detector: Detector,
}

impl DarkSouls {
    pub open spec fn wf(&self) -> bool {
        self.detector.wf()
    }

    /// Create the watcher from its configuration and the reference image of
    /// the death text, as loaded from disk: its red channel is isolated and
    /// stored. Fails with `BadChannel` exactly when the loaded image has no
    /// red channel.
    pub fn new(config: Config, reference: Image) -> (r: Result<DarkSouls, ImageError>)
        requires
            reference.wf(),
        ensures
            match r {
                Ok(ds) => {
                    &&& RED_CHANNEL < reference.spec_channels()
                    &&& ds.wf()
                    &&& ds.config == config
                    &&& !ds.you_died_debounce.fired_once
                    &&& ds.you_died_debounce.period == DEFAULT_COOLDOWN_MS
                    &&& ds.detector.params == spec_you_died_params()
                    &&& ds.detector.reference.spec_width() == reference.spec_width()
                    &&& ds.detector.reference.spec_height() == reference.spec_height()
                    &&& forall|i: int|
                        0 <= i < ds.detector.reference@.len() ==> ds.detector.reference@[i]
                            == reference@[i * reference.spec_channels() + RED_CHANNEL]
                },
                Err(e) => e == ImageError::BadChannel && reference.spec_channels() <= RED_CHANNEL,
            },
    {
        let red = extract_channel(&reference, RED_CHANNEL)?;
        Ok(
            DarkSouls {
                config,
                you_died_debounce: DebounceRisingEdge::new(),
                detector: Detector::new(you_died_params(), red),
            },
        )
    }

    /// Whether the frame shows the death text: evaluate the death-screen
    /// detector on it, lazily resizing the stored reference the first time
    /// the frame's region turns out to have another size. The games all
    /// draw the same text in the same place, so one detector answers for
    /// any of them.
    pub fn is_dark_souls_you_died(&mut self, frame: &Image) -> (r: Result<bool, ImageError>)
        requires
            old(self).wf(),
            frame.wf(),
        ensures
            final(self).wf(),
            final(self).config == old(self).config,
            final(self).you_died_debounce == old(self).you_died_debounce,
            Detector::spec_evaluate_post(old(self).detector, final(self).detector, *frame, r),
    {
        self.detector.evaluate(frame)
    }

    /// Run the configured detection on one frame taken at time `now`
    /// (milliseconds). Returns `Ok(true)` exactly when the configured
    /// action should be dispatched now: an action is configured, the frame
    /// shows the death text, and the debouncer accepts the rising edge.
    /// Detection errors are handed back unchanged and leave the debouncer
    /// alone; with no configured action nothing runs and nothing changes.
    pub fn execute(&mut self, frame: &Image, now: u64) -> (r: Result<bool, ImageError>)
        requires
            old(self).wf(),
            frame.wf(),
        ensures
            final(self).wf(),
            final(self).config == old(self).config,
            old(self).config.you_died is None ==> r == Result::<bool, ImageError>::Ok(false)
                && *final(self) == *old(self),
            old(self).config.you_died is Some ==> ({
                let rect = old(self).detector.params.spec_rect(
                    frame.spec_width() as int,
                    frame.spec_height() as int,
                );
                let d = spec_sq_diff_sum(
                    spec_region_binarized(
                        *frame,
                        rect,
                        old(self).detector.params.channel as int,
                        old(self).detector.params.cutoff,
                        old(self).detector.params.maxval,
                    ),
                    final(self).detector.reference@,
                ) < old(self).detector.params.distance_threshold;
                match r {
                    Ok(fired) => {
                        &&& Detector::spec_evaluate_post(
                            old(self).detector,
                            final(self).detector,
                            *frame,
                            Result::<bool, ImageError>::Ok(d),
                        )
                        &&& fired == old(self).you_died_debounce.spec_fires(d, now)
                        &&& final(self).you_died_debounce == old(
                            self,
                        ).you_died_debounce.spec_step(d, now)
                    },
                    Err(e) => {
                        &&& Detector::spec_evaluate_post(
                            old(self).detector,
                            final(self).detector,
                            *frame,
                            Result::<bool, ImageError>::Err(e),
                        )
                        &&& final(self).you_died_debounce == old(self).you_died_debounce
                    },
                }
            }),
    {
        if self.config.you_died.is_some() {
            let detected = self.is_dark_souls_you_died(frame)?;
            let fired = self.you_died_debounce.feed(detected, now);
            Ok(fired)
        } else {
            Ok(false)
        }
    }
}

} // verus!
