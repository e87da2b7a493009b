use std::io::Cursor;

use image::AnimationDecoder;
use image::codecs::gif::GifDecoder;

use huecycle::encode::EncodeError;
use huecycle::encode::encode_animation;
use huecycle::encode::render_animation;
use huecycle::raster::Raster;
use huecycle::raster::render_frame;
use huecycle::raster::render_frames;
use huecycle::raster::transform_pixel;

fn sample_raster() -> Raster {
    // 2 x 2: red, green, blue, translucent gray
    let data = vec![
        255, 0, 0, 255, //
        0, 255, 0, 255, //
        0, 0, 255, 255, //
        90, 90, 90, 128,
    ];
    Raster { width: 2, height: 2, data }
}

#[test]
fn frame_count_and_order() {
    let src = sample_raster();
    let frames = render_frames(&src, 12);
    assert_eq!(frames.len(), 12);
    for (h, frame) in frames.iter().enumerate() {
        assert_eq!(frame.width, 2);
        assert_eq!(frame.height, 2);
        // frame h equals the per-pixel transform at step h
        for p in 0..4 {
            let q = transform_pixel(
                src.data[4 * p],
                src.data[4 * p + 1],
                src.data[4 * p + 2],
                src.data[4 * p + 3],
                h as u32,
                12,
            );
            assert_eq!(
                &frame.data[4 * p..4 * p + 4],
                &[q.0, q.1, q.2, q.3],
            );
        }
    }
}

#[test]
fn single_step_reproduces_opaque_source() {
    let src = Raster { width: 2, height: 1, data: vec![10, 200, 30, 255, 0, 0, 0, 255] };
    let frames = render_frames(&src, 1);
    assert_eq!(frames.len(), 1);
    assert_eq!(frames[0].data, src.data);
}

#[test]
fn single_step_mattes_translucent_pixels() {
    let src = Raster { width: 1, height: 1, data: vec![10, 200, 30, 254] };
    let frame = render_frame(&src, 0, 1);
    assert_eq!(frame.data, vec![10, 200, 30, 0]);
}

#[test]
fn rerun_is_byte_identical() {
    let src = sample_raster();
    let frames1 = render_frames(&src, 12);
    let frames2 = render_frames(&src, 12);
    for (f1, f2) in frames1.iter().zip(frames2.iter()) {
        assert_eq!(f1.data, f2.data);
    }
    let a1 = render_animation(&src, 12, 1200).unwrap();
    let a2 = render_animation(&src, 12, 1200).unwrap();
    assert_eq!(a1, a2);
}

#[test]
fn encoder_receives_twelve_frames_in_order() {
    let src = sample_raster();
    let bytes = render_animation(&src, 12, 1200).unwrap();
    let decoder = GifDecoder::new(Cursor::new(&bytes[..])).unwrap();
    let frames = decoder.into_frames().collect_frames().unwrap();
    assert_eq!(frames.len(), 12);
    for frame in &frames {
        assert_eq!(frame.buffer().width(), 2);
        assert_eq!(frame.buffer().height(), 2);
        // uniform delay: 1200 ms / 12 frames = 100 ms each
        let (num, den) = frame.delay().numer_denom_ms();
        assert_eq!(num / den, 100);
    }
}

#[test]
fn single_frame_artifact() {
    let src = sample_raster();
    let bytes = render_animation(&src, 1, 100).unwrap();
    let decoder = GifDecoder::new(Cursor::new(&bytes[..])).unwrap();
    let frames = decoder.into_frames().collect_frames().unwrap();
    assert_eq!(frames.len(), 1);
}

#[test]
fn artifact_is_a_gif_stream() {
    let src = sample_raster();
    let bytes = render_animation(&src, 2, 100).unwrap();
    assert_eq!(&bytes[0..3], b"GIF");
}

#[test]
fn empty_raster_renders_empty_frames() {
    let src = Raster { width: 0, height: 0, data: vec![] };
    let frames = render_frames(&src, 3);
    assert_eq!(frames.len(), 3);
    for frame in &frames {
        assert!(frame.data.is_empty());
    }
}

#[test]
fn sixteen_bit_dimensions_encode_ok() {
    // success is owed whenever both sides fit the format's 16 bits
    let wide = Raster { width: 65535, height: 1, data: vec![7; 4 * 65535] };
    assert!(encode_animation(&vec![wide], 100, 1).is_ok());
}

#[test]
fn oversized_frame_is_an_encoder_error() {
    // GIF dimensions are 16-bit: a 70000-pixel-wide frame is refused
    let wide = Raster { width: 70000, height: 1, data: vec![0; 4 * 70000] };
    let r = encode_animation(&vec![wide], 100, 1);
    assert!(matches!(r, Err(EncodeError::Encoder(_))));
}
