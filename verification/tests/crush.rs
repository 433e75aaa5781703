use image::{ImageFormat, Rgb, RgbImage};

use picmash::crush::{
    after_decode, after_encode, crush_import_image, crush_plan, judge_encoder, normalized_extension,
    CrushPlan, CrushStage, CrushTask, EncoderInput,
};
use picmash::lifecycle::encode_display_crop_png;
use picmash::png::Raster;

fn flat_image_bytes(format: ImageFormat) -> Vec<u8> {
    let image = RgbImage::from_pixel(8, 8, Rgb([40, 50, 60]));
    let mut out = Vec::new();
    image.write_to(&mut std::io::Cursor::new(&mut out), format).expect("encode image");
    out
}

#[test]
fn recognizes_png_payloads() {
    assert_eq!(
        crush_plan("test.png", &flat_image_bytes(ImageFormat::Png)),
        CrushPlan::RasterToJxl
    );
}

#[test]
fn recognizes_jpeg_payloads() {
    assert_eq!(
        crush_plan("test.jpg", &flat_image_bytes(ImageFormat::Jpeg)),
        CrushPlan::JpegToJxl
    );
}

#[test]
fn recognizes_webp_payloads() {
    assert_eq!(
        crush_plan("test.webp", &flat_image_bytes(ImageFormat::WebP)),
        CrushPlan::RasterToJxl
    );
}

#[test]
fn preserves_jxl_payloads() {
    assert_eq!(crush_plan("test.jxl", b"not-a-decoded-jxl"), CrushPlan::JxlPassthrough);
}

#[test]
fn payloads_decide_over_names() {
    assert_eq!(
        crush_plan("test.png", &flat_image_bytes(ImageFormat::Jpeg)),
        CrushPlan::JpegToJxl
    );
    assert_eq!(
        crush_plan("photo.jpg", &flat_image_bytes(ImageFormat::Png)),
        CrushPlan::RasterToJxl
    );
    assert_eq!(crush_plan("photo.JXL", &[0xff, 0xd8, 0xff]), CrushPlan::JxlPassthrough);
    assert_eq!(crush_plan("photo", &[0xff, 0xd8, 0xff]), CrushPlan::JpegToJxl);
    assert_eq!(crush_plan("photo", &[0xff, 0xd8]), CrushPlan::RasterToJxl);
}

#[test]
fn jxl_images_are_finished_at_once() {
    match crush_import_image("a.jxl", b"abc") {
        CrushTask::Finished(image) => {
            assert_eq!(image.bytes(), b"abc");
            assert_eq!(image.extension(), "jxl");
            assert_eq!(image.into_bytes(), b"abc".to_vec());
        }
        task => panic!("{task:?}"),
    }
}

#[test]
fn encoders_get_these_arguments() {
    match crush_import_image("a.JPG", &flat_image_bytes(ImageFormat::Jpeg)) {
        CrushTask::Encode { stage: CrushStage::Jpeg, input, input_name, args } => {
            assert!(matches!(input, EncoderInput::Original));
            assert_eq!(input_name, "input.jpg");
            assert_eq!(args, vec!["--lossless_jpeg=1", "-e", "10", "--quiet"]);
        }
        task => panic!("{task:?}"),
    }
    match crush_import_image("a.png", &flat_image_bytes(ImageFormat::Png)) {
        CrushTask::Encode { stage: CrushStage::Raster, input, input_name, args } => {
            assert!(matches!(input, EncoderInput::Original));
            assert_eq!(input_name, "input.png");
            assert_eq!(args, vec!["-d", "0", "-e", "10", "--quiet"]);
        }
        task => panic!("{task:?}"),
    }
    assert_eq!(normalized_extension("x/y.WebP"), "webp");
}

#[test]
fn encoders_are_judged_by_status_and_output() {
    assert_eq!(judge_encoder(true, "exit status: 0", "", vec![1]), Ok(vec![1]));
    assert_eq!(
        judge_encoder(true, "exit status: 0", "", vec![]),
        Err("cjxl produced no output".to_owned())
    );
    assert_eq!(
        judge_encoder(false, "exit status: 1", " bad input\n", vec![1]),
        Err("cjxl exited exit status: 1: bad input".to_owned())
    );
}

#[test]
fn jpeg_streams_fall_back_to_their_pixels() {
    let lossless_error = match after_encode(CrushStage::Jpeg, Err("no".to_owned())) {
        CrushTask::Decode { lossless_error } => lossless_error,
        task => panic!("{task:?}"),
    };
    assert_eq!(lossless_error, "no");
    let pixels = vec![10, 20, 30, 255, 40, 50, 60, 128];
    let raster = Raster { width: 2, height: 1, pixels: pixels.clone() };
    let stage = match after_decode(lossless_error, Ok(raster)) {
        CrushTask::Encode { stage, input, input_name, args } => {
            assert_eq!(input_name, "input.png");
            assert_eq!(args, vec!["-d", "0", "-e", "10", "--quiet"]);
            let content = match input {
                EncoderInput::Png(content) => content,
                EncoderInput::Original => panic!("the original again"),
            };
            let read = image::load_from_memory_with_format(&content, ImageFormat::Png)
                .expect("read png");
            assert_eq!(read.width(), 2);
            assert_eq!(read.to_rgba8().into_raw(), pixels);
            stage
        }
        task => panic!("{task:?}"),
    };
    match after_encode(stage, Err("worse".to_owned())) {
        CrushTask::Refused { message } => assert_eq!(
            message,
            "lossless jpeg transcode failed: no: encoding decoded raster into jxl: worse"
        ),
        task => panic!("{task:?}"),
    }
    match after_decode("no".to_owned(), Err("truncated".to_owned())) {
        CrushTask::Refused { message } => {
            assert_eq!(
                message,
                "lossless jpeg transcode failed: no: \
                 decoding image into canonical raster before jxl encode: truncated"
            )
        }
        task => panic!("{task:?}"),
    }
    let empty = Raster { width: 0, height: 0, pixels: vec![] };
    match after_decode("no".to_owned(), Ok(empty)) {
        CrushTask::Refused { message } => assert_eq!(
            message,
            "lossless jpeg transcode failed: no: encoding decoded raster as png for cjxl fallback: \
             Zero width not allowed"
        ),
        task => panic!("{task:?}"),
    }
    match after_encode(CrushStage::Raster, Err("no".to_owned())) {
        CrushTask::Refused { message } => assert_eq!(message, "no"),
        task => panic!("{task:?}"),
    }
    match after_encode(CrushStage::Jpeg, Ok(vec![9])) {
        CrushTask::Finished(image) => assert_eq!(image.bytes(), &[9]),
        task => panic!("{task:?}"),
    }
}

#[test]
fn cut_outs_are_written_as_png() {
    let pixels = vec![1, 2, 3, 255, 4, 5, 6, 255, 7, 8, 9, 255, 10, 11, 12, 0];
    let crop = Raster { width: 2, height: 2, pixels: pixels.clone() };
    let png = encode_display_crop_png(crop).expect("encode crop");
    let read = image::load_from_memory_with_format(&png, ImageFormat::Png).expect("read png");
    assert_eq!(read.to_rgba8().into_raw(), pixels);
    assert!(encode_display_crop_png(Raster { width: 0, height: 0, pixels: vec![] }).is_none());
    assert!(Raster { width: 2, height: 2, pixels: vec![0; 16] }.is_whole());
    assert!(!Raster { width: 2, height: 2, pixels: vec![0; 15] }.is_whole());
    assert!(!Raster { width: u32::MAX, height: u32::MAX, pixels: vec![0; 15] }.is_whole());
}
