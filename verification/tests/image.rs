use rx::color::Rgba8;
use rx::image::{read_png, write_png, ImageError};

#[test]
fn png_round_trip() {
    let pixels = vec![Rgba8::new(1, 2, 3, 4), Rgba8::new(0xff, 0, 0x80, 0xff)];
    let file = write_png(2, 1, &pixels).expect("the image is encoded");
    assert_eq!(&file[1..4], b"PNG");
    let (data, w, h) = read_png(&file).expect("the image is decoded");
    assert_eq!((w, h), (2, 1));
    assert_eq!(data, vec![1, 2, 3, 4, 0xff, 0, 0x80, 0xff]);
}

#[test]
fn png_of_the_wrong_size_is_not_written() {
    let pixels = vec![Rgba8::new(1, 2, 3, 4)];
    assert_eq!(write_png(2, 2, &pixels), Err(ImageError::EncodingFailed));
}

#[test]
fn garbage_is_not_decoded() {
    assert_eq!(read_png(b"not a png"), Err(ImageError::DecodingFailed));
    assert_eq!(ImageError::DecodingFailed.message(), "decoding failed");
}

#[test]
fn only_rgba_images_are_read() {
    let mut file: Vec<u8> = Vec::new();
    {
        let mut encoder = png::Encoder::new(&mut file, 1, 1);
        encoder.set_color(png::ColorType::RGB);
        encoder.set_depth(png::BitDepth::Eight);
        let mut writer = encoder.write_header().expect("a header");
        writer.write_image_data(&[1, 2, 3]).expect("the data");
    }
    assert_eq!(read_png(&file), Err(ImageError::NotRgba8));
    assert_eq!(ImageError::NotRgba8.message(), "only 8-bit RGBA images are supported");
}
