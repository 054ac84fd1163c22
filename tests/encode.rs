use rusty_vision::jpeg::{array_to_jpeg, ImageView};
use rusty_vision::raster::{GrayImage, RgbImage};

#[test]
fn gray_frame_encodes_to_jpeg() {
    let mut img = GrayImage::filled(16, 8, 0);
    for i in 0..img.data.len() {
        img.data[i] = (i * 2) as u8;
    }
    let jpeg = array_to_jpeg(ImageView::Gray(&img)).unwrap();
    assert_eq!(&jpeg[..2], &[0xFF, 0xD8]);
    assert_eq!(&jpeg[jpeg.len() - 2..], &[0xFF, 0xD9]);
    assert_ne!(jpeg, img.data);
}

#[test]
fn rgb_frame_encodes_to_jpeg() {
    let img = RgbImage { width: 4, height: 4, data: vec![[200, 10, 10]; 16] };
    let jpeg = array_to_jpeg(ImageView::Rgb(&img)).unwrap();
    assert_eq!(&jpeg[..2], &[0xFF, 0xD8]);
    assert_ne!(jpeg.len(), 48);
    let again = array_to_jpeg(ImageView::Rgb(&img)).unwrap();
    assert_eq!(jpeg, again);
}

#[test]
fn unencodable_frames_give_none() {
    let empty = GrayImage::filled(0, 5, 0);
    assert!(array_to_jpeg(ImageView::Gray(&empty)).is_none());
    let bad = GrayImage { width: 3, height: 3, data: vec![0; 8] };
    assert!(array_to_jpeg(ImageView::Gray(&bad)).is_none());
    let wide = RgbImage { width: 70000, height: 1, data: vec![[0, 0, 0]; 70000] };
    assert!(array_to_jpeg(ImageView::Rgb(&wide)).is_none());
}
