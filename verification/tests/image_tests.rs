use framewatch::image::{
    distance, extract_channel, resize_frames_to_match, roi, similar, threshold_binary, Image,
    ImageError, Rect,
};

fn single(width: usize, height: usize, data: Vec<u8>) -> Image {
    Image::from_raw(width, height, 1, data).unwrap()
}

#[test]
fn from_raw_checks_buffer() {
    assert!(Image::from_raw(2, 2, 1, vec![0; 4]).is_ok());
    assert_eq!(
        Image::from_raw(2, 2, 1, vec![0; 5]).err().unwrap(),
        ImageError::SizeMismatch
    );
    assert_eq!(
        Image::from_raw(2, 2, 0, vec![]).err().unwrap(),
        ImageError::BadChannel
    );
}

#[test]
fn extract_channel_picks_channel() {
    let img = Image::from_raw(2, 1, 2, vec![10, 20, 30, 40]).unwrap();
    let c0 = extract_channel(&img, 0).unwrap();
    assert_eq!(c0.data().as_slice(), &[10, 30]);
    let c1 = extract_channel(&img, 1).unwrap();
    assert_eq!(c1.data().as_slice(), &[20, 40]);
    assert_eq!(c1.width(), 2);
    assert_eq!(c1.height(), 1);
    assert_eq!(c1.channels(), 1);
    assert_eq!(extract_channel(&img, 2).err().unwrap(), ImageError::BadChannel);
}

#[test]
fn threshold_binarizes_at_cutoff() {
    let img = single(4, 1, vec![79, 80, 255, 0]);
    let out = threshold_binary(&img, 80, 255);
    assert_eq!(out.data().as_slice(), &[0, 255, 255, 0]);
}

#[test]
fn roi_crops_rectangle() {
    let img = single(4, 4, (0..16).collect());
    let out = roi(
        &img,
        Rect { x: 1, y: 1, width: 2, height: 2 },
    )
    .unwrap();
    assert_eq!(out.width(), 2);
    assert_eq!(out.height(), 2);
    assert_eq!(out.data().as_slice(), &[5, 6, 9, 10]);
}

#[test]
fn roi_out_of_bounds() {
    let img = single(4, 4, vec![0; 16]);
    let r = roi(
        &img,
        Rect { x: 3, y: 0, width: 2, height: 1 },
    );
    assert_eq!(r.err().unwrap(), ImageError::OutOfBounds);
}

#[test]
fn distance_is_sum_of_squared_differences() {
    let a = single(2, 1, vec![0, 10]);
    let b = single(2, 1, vec![3, 14]);
    assert_eq!(distance(&a, &b).unwrap(), 9 + 16);
}

#[test]
fn distance_symmetric_and_zero_on_self() {
    let a = single(2, 2, vec![1, 200, 37, 255]);
    let b = single(2, 2, vec![90, 0, 41, 13]);
    assert_eq!(distance(&a, &a).unwrap(), 0);
    assert_eq!(distance(&b, &b).unwrap(), 0);
    assert_eq!(distance(&a, &b).unwrap(), distance(&b, &a).unwrap());
}

#[test]
fn distance_needs_matching_sizes() {
    let a = single(2, 1, vec![0, 0]);
    let b = single(1, 2, vec![0, 0]);
    assert_eq!(distance(&a, &b).err().unwrap(), ImageError::SizeMismatch);
}

/// Two identical binarized images are similar under a threshold of 5000;
/// two fully inverted ones are not.
#[test]
fn similar_identical_and_inverted() {
    let a = single(2, 2, vec![255, 0, 255, 0]);
    let same = single(2, 2, vec![255, 0, 255, 0]);
    let inverted = single(2, 2, vec![0, 255, 0, 255]);
    assert!(similar(&a, &same, 5_000).unwrap());
    assert!(!similar(&a, &inverted, 5_000).unwrap());
}

/// Resizing to an already matching size is a no-op, twice in a row.
#[test]
fn resize_same_size_is_noop() {
    let a = single(2, 2, vec![0; 4]);
    let mut b = single(2, 2, vec![9, 8, 7, 6]);
    resize_frames_to_match(&a, &mut b).unwrap();
    assert_eq!(b.data().as_slice(), &[9, 8, 7, 6]);
    resize_frames_to_match(&a, &mut b).unwrap();
    assert_eq!(b.data().as_slice(), &[9, 8, 7, 6]);
}

#[test]
fn resize_scales_to_target_grid() {
    let a = single(2, 2, vec![0; 4]);
    let mut b = single(1, 1, vec![7]);
    resize_frames_to_match(&a, &mut b).unwrap();
    assert_eq!(b.width(), 2);
    assert_eq!(b.height(), 2);
    assert_eq!(b.data().as_slice(), &[7, 7, 7, 7]);

    let c = single(2, 1, vec![0, 0]);
    let mut d = single(4, 1, vec![1, 2, 3, 4]);
    resize_frames_to_match(&c, &mut d).unwrap();
    assert_eq!(d.data().as_slice(), &[1, 3]);
}

#[test]
fn resize_refuses_empty_source() {
    let a = single(2, 2, vec![0; 4]);
    let mut b = Image::from_raw(0, 0, 1, vec![]).unwrap();
    assert_eq!(
        resize_frames_to_match(&a, &mut b).err().unwrap(),
        ImageError::EmptyImage
    );
    assert_eq!(b.width(), 0);
    assert_eq!(b.height(), 0);
}

#[test]
fn from_raw_rejects_overflowing_extent() {
    let r = Image::from_raw(usize::MAX, usize::MAX, 1, vec![0; 4]);
    assert_eq!(r.err().unwrap(), ImageError::SizeMismatch);
}

#[test]
fn roi_keeps_channels() {
    let img = Image::from_raw(2, 2, 2, (0..8).collect()).unwrap();
    let out = roi(
        &img,
        Rect { x: 1, y: 0, width: 1, height: 2 },
    )
    .unwrap();
    assert_eq!(out.channels(), 2);
    assert_eq!(out.data().as_slice(), &[2, 3, 6, 7]);
}

#[test]
fn resize_samples_nearest_neighbour() {
    let a = single(3, 3, vec![0; 9]);
    let mut b = single(2, 2, vec![1, 2, 3, 4]);
    resize_frames_to_match(&a, &mut b).unwrap();
    assert_eq!(b.data().as_slice(), &[1, 1, 2, 1, 1, 2, 3, 3, 4]);
}

#[test]
fn get_reads_samples() {
    let img = Image::from_raw(2, 2, 2, (0..8).collect()).unwrap();
    assert_eq!(img.get(0, 0, 0), 0);
    assert_eq!(img.get(1, 0, 1), 3);
    assert_eq!(img.get(0, 1, 0), 4);
    assert_eq!(img.get(1, 1, 1), 7);
}
