use framewatch::action;
use framewatch::darksouls::{you_died_params, Config, DarkSouls};
use framewatch::detector::{Detector, DetectorSpec, Frac};
use framewatch::image::{Image, ImageError};

/// The death-screen region on a 1920 by 1080 frame: 768 by 162 pixels with
/// the top-left corner at (576, 486).
#[test]
fn roi_offsets_on_full_hd() {
    let rect = you_died_params().compute_roi(1920, 1080).unwrap();
    assert_eq!(rect.x, 576);
    assert_eq!(rect.y, 486);
    assert_eq!(rect.width, 768);
    assert_eq!(rect.height, 162);
}

#[test]
fn roi_rejected_when_region_leaves_frame() {
    let params = DetectorSpec {
        center_x: Frac::new(0, 1),
        center_y: Frac::new(1, 2),
        width_frac: Frac::new(1, 2),
        height_frac: Frac::new(1, 2),
        channel: 0,
        cutoff: 80,
        maxval: 255,
        distance_threshold: 5_000,
    };
    assert_eq!(
        params.compute_roi(10, 10).err().unwrap(),
        ImageError::OutOfBounds
    );
}

fn small_params(threshold: u64) -> DetectorSpec {
    DetectorSpec {
        center_x: Frac::new(1, 2),
        center_y: Frac::new(1, 2),
        width_frac: Frac::new(1, 2),
        height_frac: Frac::new(1, 2),
        channel: 0,
        cutoff: 80,
        maxval: 255,
        distance_threshold: threshold,
    }
}

/// A matching region is detected, a fully differing one is not, and the
/// stored reference is lazily resized to the region's size on first use.
#[test]
fn detector_matches_and_resizes() {
    let lit = Image::from_raw(10, 10, 1, vec![255; 100]).unwrap();
    let dark = Image::from_raw(10, 10, 1, vec![0; 100]).unwrap();

    let reference = Image::from_raw(2, 2, 1, vec![255; 4]).unwrap();
    let mut det = Detector::new(small_params(5_000), reference);
    assert!(det.evaluate(&lit).unwrap());
    assert_eq!(det.reference.width(), 5);
    assert_eq!(det.reference.height(), 5);
    assert!(!det.evaluate(&dark).unwrap());
}

#[test]
fn detector_needs_the_channel() {
    let frame = Image::from_raw(10, 10, 1, vec![0; 100]).unwrap();
    let reference = Image::from_raw(5, 5, 1, vec![0; 25]).unwrap();
    let mut params = small_params(5_000);
    params.channel = 2;
    let mut det = Detector::new(params, reference);
    assert_eq!(det.evaluate(&frame).err().unwrap(), ImageError::BadChannel);
}

fn red_frame(width: usize, height: usize, red: u8) -> Image {
    let mut data = Vec::new();
    for _ in 0..width * height {
        data.push(0);
        data.push(0);
        data.push(red);
    }
    Image::from_raw(width, height, 3, data).unwrap()
}

/// The full pipeline on the death-screen watcher: detection, debounce and
/// the dispatch decision, one edge per death.
#[test]
fn darksouls_execute_fires_once_per_cooldown() {
    let config = Config {
        you_died: Some(action::Config::Webhook { url: String::from("http://example.invalid/died") }),
    };
    let reference = red_frame(16, 6, 255);
    let mut ds = DarkSouls::new(config, reference).unwrap();

    let showing = red_frame(40, 40, 255);
    let blank = red_frame(40, 40, 0);

    assert!(ds.execute(&showing, 0).unwrap());
    assert!(!ds.execute(&showing, 1_000).unwrap());
    assert!(!ds.execute(&blank, 2_000).unwrap());
    assert!(ds.execute(&showing, 6_000).unwrap());
}

/// Without a configured action nothing is detected and nothing fires.
#[test]
fn darksouls_execute_without_action_is_idle() {
    let reference = red_frame(16, 6, 255);
    let mut ds = DarkSouls::new(Config { you_died: None }, reference).unwrap();
    let showing = red_frame(40, 40, 255);
    assert!(!ds.execute(&showing, 0).unwrap());
    assert!(!ds.execute(&showing, 10_000).unwrap());
}

/// The loaded reference must have a red channel to isolate.
#[test]
fn darksouls_new_needs_red_channel() {
    let reference = Image::from_raw(4, 4, 1, vec![0; 16]).unwrap();
    assert_eq!(
        DarkSouls::new(Config { you_died: None }, reference).err().unwrap(),
        ImageError::BadChannel
    );
}

/// Detection errors are reported, not turned into events: a frame without a
/// red channel is answered with `BadChannel`.
#[test]
fn darksouls_detection_error_propagates() {
    let reference = red_frame(16, 6, 255);
    let mut ds = DarkSouls::new(Config { you_died: Some(action::Config::Webhook { url: String::from("http://example.invalid/died") }) }, reference).unwrap();
    let grey = Image::from_raw(40, 40, 1, vec![0; 1600]).unwrap();
    assert_eq!(ds.execute(&grey, 0).err().unwrap(), ImageError::BadChannel);
}
