//! How an outside image is turned into lossless JPEG XL before it is taken in.
use crate::config;
use crate::png;
use crate::png::Raster;
use crate::remote_pick;
use crate::text;
use crate::textset;
use vstd::prelude::*;

verus! {

/// How an image becomes JPEG XL.
#[derive(Debug, Clone, Copy, PartialEq, Eq, Structural)]
pub enum CrushPlan {
    /// It is JPEG XL already.
    JxlPassthrough,
    /// The JPEG stream is packed without loss.
    JpegToJxl,
    /// The pixels are packed without loss.
    RasterToJxl,
}

/// An image as it is taken in.
#[derive(Debug)]
pub struct CrushedImage {
    bytes: Vec<u8>,
    extension: String,
}

impl CrushedImage {
    /// The content of the file.
    pub closed spec fn content(&self) -> Seq<u8> {
        self.bytes@
    }

    /// The extension of the file.
    pub closed spec fn ending(&self) -> Seq<char> {
        self.extension@
    }

    /// The content of the file.
    #[must_use]
    pub fn bytes(&self) -> (r: &[u8])
        ensures
            r@ == self.content(),
    {
        self.bytes.as_slice()
    }

    /// The content of the file.
    #[must_use]
    pub fn into_bytes(self) -> (r: Vec<u8>)
        ensures
            r@ == self.content(),
    {
        self.bytes
    }

    /// The extension of the file.
    #[must_use]
    pub fn extension(&self) -> (r: &str)
        ensures
            r@ == self.ending(),
    {
        self.extension.as_str()
    }

    /// JPEG XL content.
    fn jxl(bytes: Vec<u8>) -> (r: Self)
        ensures
            r.content() == bytes@,
            r.ending() == "jxl"@,
    {
        CrushedImage { bytes, extension: "jxl".to_owned() }
    }
}

/// The content begins like a JPEG stream.
pub open spec fn begins_like_jpeg(bytes: Seq<u8>) -> bool {
    bytes.len() >= 3 && bytes[0] == 0xff && bytes[1] == 0xd8 && bytes[2] == 0xff
}

/// Whether `image::guess_format` takes the content for JPEG. It goes by the first bytes alone, and
/// JPEG is the only format that it knows by these three.
#[verifier::external_body]
fn is_guessed_jpeg(bytes: &[u8]) -> (r: bool)
    ensures
        r == begins_like_jpeg(bytes@),
{
    matches!(image::guess_format(bytes), Ok(image::ImageFormat::Jpeg))
}

/// The extension of a path in lower case, or `img` where it has none.
pub fn normalized_extension(path_hint: &str) -> (r: String)
    ensures
        r@ == remote_pick::kept_extension(path_hint@),
{
    remote_pick::extension_or_fallback(path_hint)
}

/// How an image becomes JPEG XL: by its name where it is JPEG XL already, else by its content.
pub open spec fn plan_of(path_hint: Seq<char>, bytes: Seq<u8>) -> CrushPlan {
    if remote_pick::kept_extension(path_hint) == "jxl"@ {
        CrushPlan::JxlPassthrough
    } else if begins_like_jpeg(bytes) {
        CrushPlan::JpegToJxl
    } else {
        CrushPlan::RasterToJxl
    }
}

/// How an image becomes JPEG XL.
pub fn crush_plan(path_hint: &str, bytes: &[u8]) -> (r: CrushPlan)
    ensures
        r == plan_of(path_hint@, bytes@),
{
    if text::same_text(normalized_extension(path_hint).as_str(), "jxl") {
        CrushPlan::JxlPassthrough
    } else if is_guessed_jpeg(bytes) {
        CrushPlan::JpegToJxl
    } else {
        CrushPlan::RasterToJxl
    }
}

/// What the encoder is run for.
#[derive(Debug)]
pub enum CrushStage {
    /// To pack a JPEG stream; if that fails, its pixels are packed instead.
    Jpeg,
    /// To pack the pixels.
    Raster,
    /// To pack the pixels of a JPEG stream that could not be packed for this reason.
    Fallback { lossless_error: String },
}

/// What the encoder reads.
#[derive(Debug)]
pub enum EncoderInput {
    /// The image as it came.
    Original,
    /// The decoded image as PNG.
    Png(Vec<u8>),
}

/// What has to be done next for an image.
#[derive(Debug)]
pub enum CrushTask {
    Finished(CrushedImage),
    /// The encoder is run with these arguments on a file of this name.
    Encode { stage: CrushStage, input: EncoderInput, input_name: String, args: Vec<String> },
    /// The image is decoded.
    Decode { lossless_error: String },
    Refused { message: String },
}

/// The arguments by which a JPEG stream is packed.
pub open spec fn jpeg_args() -> Seq<Seq<char>> {
    seq!["--lossless_jpeg=1"@, "-e"@, "10"@, "--quiet"@]
}

/// The arguments by which pixels are packed.
pub open spec fn raster_args() -> Seq<Seq<char>> {
    seq!["-d"@, "0"@, "-e"@, "10"@, "--quiet"@]
}

fn encode_args(jpeg: bool) -> (r: Vec<String>)
    ensures
        textset::texts(r@) == if jpeg {
            jpeg_args()
        } else {
            raster_args()
        },
{
    let mut r: Vec<String> = Vec::new();
    if jpeg {
        r.push("--lossless_jpeg=1".to_owned());
    } else {
        r.push("-d".to_owned());
        r.push("0".to_owned());
    }
    r.push("-e".to_owned());
    r.push("10".to_owned());
    r.push("--quiet".to_owned());
    assert(textset::texts(r@) =~= if jpeg {
        jpeg_args()
    } else {
        raster_args()
    });
    r
}

/// The name of the file that the encoder reads.
pub open spec fn input_name_of(path_hint: Seq<char>) -> Seq<char> {
    "input."@ + remote_pick::kept_extension(path_hint)
}

fn copy_bytes(bytes: &[u8]) -> (r: Vec<u8>)
    ensures
        r@ == bytes@,
{
    let mut r: Vec<u8> = Vec::new();
    let mut i: usize = 0;
    while i < bytes.len()
        invariant
            i <= bytes.len(),
            r@ == bytes@.take(i as int),
        decreases bytes.len() - i,
    {
        r.push(bytes[i]);
        assert(bytes@.take(i + 1) =~= bytes@.take(i as int).push(bytes@[i as int]));
        i += 1;
    }
    assert(bytes@.take(i as int) =~= bytes@);
    r
}

/// What has to be done first for an image.
pub fn crush_import_image(path_hint: &str, bytes: &[u8]) -> (r: CrushTask)
    ensures
        match (plan_of(path_hint@, bytes@), r) {
            (CrushPlan::JxlPassthrough, CrushTask::Finished(image)) => image.content() == bytes@
                && image.ending() == "jxl"@,
            (CrushPlan::JpegToJxl, CrushTask::Encode { stage, input, input_name, args }) => stage is Jpeg
                && input is Original && input_name@ == input_name_of(path_hint@) && textset::texts(args@) == jpeg_args(),
            (CrushPlan::RasterToJxl, CrushTask::Encode { stage, input, input_name, args }) => stage is Raster
                && input is Original && input_name@ == input_name_of(path_hint@) && textset::texts(args@) == raster_args(),
            _ => false,
        },
{
    let input_name = "input.".to_owned().concat(normalized_extension(path_hint).as_str());
    match crush_plan(path_hint, bytes) {
        CrushPlan::JxlPassthrough => CrushTask::Finished(CrushedImage::jxl(copy_bytes(bytes))),
        CrushPlan::JpegToJxl => CrushTask::Encode {
            stage: CrushStage::Jpeg,
            input: EncoderInput::Original,
            input_name,
            args: encode_args(true),
        },
        CrushPlan::RasterToJxl => CrushTask::Encode {
            stage: CrushStage::Raster,
            input: EncoderInput::Original,
            input_name,
            args: encode_args(false),
        },
    }
}

/// What a run of the encoder gave: its output, or why there is none.
pub open spec fn encoder_verdict(
    success: bool,
    status: Seq<char>,
    stderr: Seq<char>,
    output: Seq<u8>,
) -> Result<Seq<u8>, Seq<char>> {
    if !success {
        Err("cjxl exited "@ + status + ": "@ + config::trimmed(stderr))
    } else if output.len() == 0 {
        Err("cjxl produced no output"@)
    } else {
        Ok(output)
    }
}

/// What a run of the encoder gave.
pub fn judge_encoder(success: bool, status: &str, stderr: &str, output: Vec<u8>) -> (r: Result<
    Vec<u8>,
    String,
>)
    ensures
        encoder_verdict(success, status@, stderr@, output@) == match r {
            Ok(bytes) => Ok::<Seq<u8>, Seq<char>>(bytes@),
            Err(message) => Err::<Seq<u8>, Seq<char>>(message@),
        },
{
    if !success {
        let mut message = "cjxl exited ".to_owned();
        message.append(status);
        message.append(": ");
        message.append(config::trim(stderr).as_str());
        return Err(message);
    }
    if output.len() == 0 {
        return Err("cjxl produced no output".to_owned());
    }
    Ok(output)
}

/// What is said where neither way of packing a JPEG stream worked.
pub open spec fn fallback_refusal(lossless_error: Seq<char>, error: Seq<char>) -> Seq<char> {
    "lossless jpeg transcode failed: "@ + lossless_error + ": "@ + error
}

fn fallback_message(lossless_error: &str, error: &str) -> (r: String)
    ensures
        r@ == fallback_refusal(lossless_error@, error@),
{
    let mut r = "lossless jpeg transcode failed: ".to_owned();
    r.append(lossless_error);
    r.append(": ");
    r.append(error);
    r
}

/// What has to be done after a run of the encoder. A JPEG stream that cannot be packed is decoded and
/// packed by its pixels.
pub fn after_encode(stage: CrushStage, outcome: Result<Vec<u8>, String>) -> (r: CrushTask)
    ensures
        match (stage, outcome, r) {
            (_, Ok(bytes), CrushTask::Finished(image)) => image.content() == bytes@ && image.ending()
                == "jxl"@,
            (CrushStage::Jpeg, Err(error), CrushTask::Decode { lossless_error }) => lossless_error
                == error,
            (CrushStage::Raster, Err(error), CrushTask::Refused { message }) => message == error,
            (
                CrushStage::Fallback { lossless_error },
                Err(error),
                CrushTask::Refused { message },
            ) => message@ == fallback_refusal(
                lossless_error@,
                "encoding decoded raster into jxl: "@ + error@,
            ),
            _ => false,
        },
{
    match outcome {
        Ok(bytes) => CrushTask::Finished(CrushedImage::jxl(bytes)),
        Err(error) => match stage {
            CrushStage::Jpeg => CrushTask::Decode { lossless_error: error },
            CrushStage::Raster => CrushTask::Refused { message: error },
            CrushStage::Fallback { lossless_error } => CrushTask::Refused {
                message: fallback_message(
                    lossless_error.as_str(),
                    "encoding decoded raster into jxl: ".to_owned().concat(error.as_str()).as_str(),
                ),
            },
        },
    }
}

/// What has to be done after an image was decoded, or could not be: its pixels are written as PNG and
/// packed.
pub fn after_decode(lossless_error: String, decoded: Result<Raster, String>) -> (r: CrushTask)
    requires
        decoded matches Ok(raster) ==> raster.whole(),
    ensures
        match decoded {
            Ok(raster) => match png::png_encoding(raster.pixels@, raster.width, raster.height) {
                Ok(content) => r matches CrushTask::Encode { stage, input, input_name, args } && stage
                    == (CrushStage::Fallback { lossless_error }) && (input matches EncoderInput::Png(
                    bytes,
                ) && bytes@ == content) && input_name@ == "input.png"@ && textset::texts(args@)
                    == raster_args(),
                Err(error) => r matches CrushTask::Refused { message } && message@ == fallback_refusal(
                    lossless_error@,
                    "encoding decoded raster as png for cjxl fallback: "@ + error,
                ),
            },
            Err(error) => r matches CrushTask::Refused { message } && message@ == fallback_refusal(
                lossless_error@,
                "decoding image into canonical raster before jxl encode: "@ + error@,
            ),
        },
{
    match decoded {
        Ok(raster) => match png::encode_png(raster) {
            Ok(content) => CrushTask::Encode {
                stage: CrushStage::Fallback { lossless_error },
                input: EncoderInput::Png(content),
                input_name: "input.png".to_owned(),
                args: encode_args(false),
            },
            Err(error) => CrushTask::Refused {
                message: fallback_message(
                    lossless_error.as_str(),
                    "encoding decoded raster as png for cjxl fallback: ".to_owned().concat(
                        error.as_str(),
                    ).as_str(),
                ),
            },
        },
        Err(error) => CrushTask::Refused {
            message: fallback_message(
                lossless_error.as_str(),
                "decoding image into canonical raster before jxl encode: ".to_owned().concat(
                    error.as_str(),
                ).as_str(),
            ),
        },
    }
}

/// Images named as JPEG XL are taken in as they are, whatever they hold.
pub proof fn jxl_is_kept_as_it_is(path_hint: Seq<char>, bytes: Seq<u8>)
    requires
        remote_pick::kept_extension(path_hint) == "jxl"@,
    ensures
        plan_of(path_hint, bytes) == CrushPlan::JxlPassthrough,
{
}

} // verus!
