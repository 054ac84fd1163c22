use rusty_vision::frame::{Frame, FrameConfig, FrameError, PixelFormat};

fn frame(data: Vec<u8>, width: u32, height: u32, format: PixelFormat) -> Frame {
    Frame::new(FrameConfig { data, width, height, format }).unwrap()
}

#[test]
fn bytes_per_pixel_by_format() {
    assert_eq!(PixelFormat::GRAY8.bytes_per_pixel(), 1);
    assert_eq!(PixelFormat::RGB8.bytes_per_pixel(), 3);
    assert_eq!(PixelFormat::BGR8.bytes_per_pixel(), 3);
    assert_eq!(PixelFormat::HSV.bytes_per_pixel(), 3);
    assert_eq!(PixelFormat::RGBA8.bytes_per_pixel(), 4);
}

#[test]
fn new_rejects_zero_dimensions() {
    let r = Frame::new(FrameConfig { data: vec![], width: 0, height: 4, format: PixelFormat::RGB8 });
    assert_eq!(r.err(), Some(FrameError::ZeroDimensions));
    let r = Frame::new(FrameConfig { data: vec![1], width: 1, height: 0, format: PixelFormat::GRAY8 });
    assert_eq!(r.err(), Some(FrameError::ZeroDimensions));
}

#[test]
fn new_rejects_wrong_buffer() {
    let r = Frame::new(FrameConfig { data: vec![0; 10], width: 2, height: 2, format: PixelFormat::RGB8 });
    assert_eq!(r.err(), Some(FrameError::InvalidDimensions { expected: 12, actual: 10 }));
    assert_eq!(FrameError::ZeroDimensions.message(), "Provided dimensions are zero");
}

#[test]
fn get_pixel_in_and_out() {
    let f = frame((0..12).collect(), 2, 2, PixelFormat::RGB8);
    assert_eq!(f.get_pixel(1, 1), Some(&[9u8, 10, 11][..]));
    assert_eq!(f.get_pixel(0, 1), Some(&[6u8, 7, 8][..]));
    assert_eq!(f.get_pixel(2, 0), None);
    assert_eq!(f.get_pixel(0, 2), None);
}

#[test]
fn grayscale_conversions() {
    let f = frame(vec![255, 255, 255, 100, 0, 0], 2, 1, PixelFormat::RGB8);
    // 0.299 * 100 = 29.9 -> 29
    assert_eq!(f.to_grayscale().data, vec![255, 29]);
    let b = frame(vec![0, 0, 100], 1, 1, PixelFormat::BGR8);
    assert_eq!(b.to_grayscale().data, vec![29]);
    let h = frame(vec![10, 20, 30], 1, 1, PixelFormat::HSV);
    assert_eq!(h.to_grayscale().data, vec![30]);
    let g = frame(vec![7, 8], 1, 2, PixelFormat::GRAY8);
    let gg = g.to_grayscale();
    assert_eq!(gg.data, vec![7, 8]);
    assert_eq!(gg.format, PixelFormat::GRAY8);
}

#[test]
fn hsv_conversions() {
    let f = frame(vec![255, 0, 0, 9, 0, 0, 255, 0], 2, 1, PixelFormat::RGBA8);
    assert_eq!(f.to_hsv().data, vec![0, 255, 255, 170, 255, 255]);
    let g = frame(vec![42], 1, 1, PixelFormat::GRAY8);
    assert_eq!(g.to_hsv().data, vec![0, 0, 42]);
}

#[test]
fn rgb_conversions() {
    let h = frame(vec![0, 255, 255, 85, 255, 255, 0, 0, 128], 3, 1, PixelFormat::HSV);
    assert_eq!(h.to_rgb8().data, vec![255, 0, 0, 0, 255, 0, 128, 128, 128]);
    let b = frame(vec![1, 2, 3], 1, 1, PixelFormat::BGR8);
    assert_eq!(b.to_rgb8().data, vec![3, 2, 1]);
    let g = frame(vec![5], 1, 1, PixelFormat::GRAY8);
    assert_eq!(g.to_rgb8().data, vec![5, 5, 5]);
    // hue 43 is 60.7 degrees: green stays full, red drops to 255 * 84 / 85
    let y = frame(vec![43, 255, 255], 1, 1, PixelFormat::HSV);
    assert_eq!(y.to_rgb8().data, vec![252, 255, 0]);
}

#[test]
fn packed_pixels() {
    let f = frame(vec![1, 2, 3, 255, 0, 16], 2, 1, PixelFormat::RGB8);
    assert_eq!(f.frame_to_u32(), vec![0x010203, 0xff0010]);
    let g = frame(vec![0x11], 1, 1, PixelFormat::GRAY8);
    assert_eq!(g.frame_to_u32(), vec![0x111111]);
}
