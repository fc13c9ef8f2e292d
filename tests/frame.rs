use pxls_render::frame::{DynamicFrame, PixelFormat, RgbaFrame, Yuv420pFrame, fit_background};
use pxls_render::pixel::{Rgb, Rgba};
use pxls_render::yuv::{clamp, rgba_data_to_yuv420_data, rgba_to_yuv420_size, yuv420p_from_rgb};

#[test]
fn rgba_serialize_is_row_major_bytes() {
    let mut f = DynamicFrame::from_pixel(PixelFormat::Rgba, 3, 2, Rgba([1, 2, 3, 4]));
    f.put_pixel(2, 1, Rgba([9, 8, 7, 6]));
    f.put_pixel(0, 1, Rgba([5, 5, 5, 5]));
    let raw = f.as_formatted_raw().to_vec();
    let mut expected = Vec::new();
    for i in 0..6 {
        let p = match i {
            5 => [9, 8, 7, 6],
            3 => [5, 5, 5, 5],
            _ => [1, 2, 3, 4],
        };
        expected.extend_from_slice(&p);
    }
    assert_eq!(raw, expected);
}

#[test]
fn rgb_serialize_drops_alpha() {
    let mut f = DynamicFrame::from_pixel(PixelFormat::Rgb, 2, 1, Rgba([1, 2, 3, 4]));
    f.put_pixel(1, 0, Rgba([7, 8, 9, 10]));
    assert_eq!(f.as_formatted_raw(), &[1, 2, 3, 7, 8, 9]);
    assert_eq!(f.get_pixel_checked(1, 0), Some(Rgba([7, 8, 9, 255])));
}

#[test]
fn get_pixel_outside_is_none() {
    let f = DynamicFrame::from_pixel(PixelFormat::Rgba, 2, 2, Rgba([0, 0, 0, 255]));
    assert_eq!(f.get_pixel_checked(2, 0), None);
    assert_eq!(f.get_pixel_checked(0, 2), None);
    assert_eq!(f.get_pixel_checked(1, 1), Some(Rgba([0, 0, 0, 255])));
    assert_eq!(f.dimensions(), (2, 2));
}

#[test]
fn yuv_white_and_black_values() {
    let white = Yuv420pFrame::from_pixel(2, 2, Rgb([255, 255, 255]));
    assert_eq!(white.as_formatted_raw(), &[235, 235, 235, 235, 128, 128]);
    let black = Yuv420pFrame::from_pixel(2, 2, Rgb([0, 0, 0]));
    assert_eq!(black.as_formatted_raw(), &[16, 16, 16, 16, 128, 128]);
}

#[test]
fn yuv_chroma_is_root_mean_square() {
    // one red pixel among three black ones: the blue-difference samples are
    // 90, 128, 128, 128 and the red-difference ones 239, 128, 128, 128
    let rgb = vec![255, 0, 0, 0, 0, 0, 0, 0, 0, 0, 0, 0];
    let yuv = yuv420p_from_rgb(&rgb, 2, 2);
    let cb = (((90u32 * 90 + 3 * 128 * 128) / 4) as f64).sqrt().floor() as u8;
    let cr = (((239u32 * 239 + 3 * 128 * 128) / 4) as f64).sqrt().floor() as u8;
    assert_eq!(yuv, vec![81, 16, 16, 16, cb, cr]);
}

#[test]
fn yuv_block_update_matches_full_conversion() {
    let w = 6u32;
    let h = 4u32;
    let mut rgb = Vec::new();
    for i in 0..(w * h) {
        rgb.push((i * 37 % 256) as u8);
        rgb.push((i * 91 % 256) as u8);
        rgb.push((i * 13 % 256) as u8);
    }
    let mut frame = match DynamicFrame::from_raw(PixelFormat::Yuv420p, w, h, rgb.clone()) {
        Some(f) => f,
        None => panic!("sizes match"),
    };
    frame.put_pixel(3, 2, Rgba([200, 10, 99, 255]));
    let i = (3 + 2 * w) as usize * 3;
    rgb[i] = 200;
    rgb[i + 1] = 10;
    rgb[i + 2] = 99;
    let full = yuv420p_from_rgb(&rgb, w, h);
    assert_eq!(frame.as_formatted_raw(), full.as_slice());
}

#[test]
fn from_raw_checks_sizes() {
    assert!(RgbaFrame::from_raw(2, 2, vec![0; 15]).is_none());
    assert!(RgbaFrame::from_raw(2, 2, vec![0; 16]).is_some());
    assert!(DynamicFrame::from_raw(PixelFormat::Yuv420p, 3, 2, vec![0; 18]).is_none());
    assert!(DynamicFrame::from_raw(PixelFormat::Rgb, 3, 2, vec![0; 18]).is_some());
}

#[test]
fn put_from_vec_replaces_all() {
    let mut f = DynamicFrame::from_pixel(PixelFormat::Yuv420p, 2, 2, Rgba([0, 0, 0, 255]));
    let px = vec![Rgba([255, 255, 255, 255]); 4];
    f.put_from_vec(&px);
    assert_eq!(f.as_formatted_raw(), &[235, 235, 235, 235, 128, 128]);
}

#[test]
fn mean_chroma_conversion_of_rgba() {
    let img = vec![255u8; 16];
    let mut yuv = vec![7u8; 8];
    rgba_data_to_yuv420_data(&mut yuv, &img, 2, 2);
    assert_eq!(yuv, vec![235, 235, 235, 235, 128, 128, 7, 7]);

    // one red pixel among three black ones: the block's mean color is (63, 0, 0)
    let mut img = vec![0u8; 16];
    img[0] = 255;
    img[3] = 255;
    let mut yuv = vec![0u8; 6];
    rgba_data_to_yuv420_data(&mut yuv, &img, 2, 2);
    assert_eq!(yuv, vec![81, 16, 16, 16, 118, 155]);

    assert_eq!(clamp(-5), 0);
    assert_eq!(clamp(300), 255);
    assert_eq!(clamp(17), 17);
    assert_eq!(rgba_to_yuv420_size(4, 2), 12);
    assert_eq!(rgba_to_yuv420_size(1, 1), 1);
}

#[test]
fn background_fitted_to_canvas() {
    // a 1x1 opaque red image on a 2x1 canvas: red, then white
    let (data, w, h) = fit_background(vec![255, 0, 0, 255], 1, 1, 2, 1);
    assert_eq!((w, h), (2, 1));
    assert_eq!(data, vec![255, 0, 0, 255, 255, 255, 255, 255]);
    // large enough: kept as it is
    let (data, w, h) = fit_background(vec![1, 2, 3, 4, 5, 6, 7, 8], 2, 1, 1, 1);
    assert_eq!((w, h), (2, 1));
    assert_eq!(data, vec![1, 2, 3, 4, 5, 6, 7, 8]);
}

#[test]
fn frame_from_rgba_drops_alpha_where_needed() {
    let f = DynamicFrame::from_rgba(PixelFormat::Rgb, 1, 1, vec![9, 8, 7, 6]).unwrap();
    assert_eq!(f.as_formatted_raw(), &[9, 8, 7]);
    let f = DynamicFrame::from_rgba(PixelFormat::Rgba, 1, 1, vec![9, 8, 7, 6]).unwrap();
    assert_eq!(f.get_pixel_checked(0, 0), Some(Rgba([9, 8, 7, 6])));
    assert!(DynamicFrame::from_rgba(PixelFormat::Yuv420p, 1, 1, vec![9, 8, 7, 6]).is_none());
    assert!(DynamicFrame::from_rgba(PixelFormat::Rgb, 1, 1, vec![9, 8, 7]).is_none());
}
