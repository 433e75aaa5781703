//! How images become JPEG XL.
use crate::config;
use crate::crush;
use crate::remote_pick;
use vstd::prelude::*;

verus! {

/// An image named as JPEG XL is kept. Of the others, those that begin with the three bytes of a JPEG
/// stream are packed as such, and all else by its pixels.
pub proof fn images_are_packed_by_their_first_bytes(path: Seq<char>, bytes: Seq<u8>)
    ensures
        ({
            let plan = crush::plan_of(path, bytes);
            let named = remote_pick::kept_extension(path) == "jxl"@;
            let jpeg = bytes.len() >= 3 && bytes[0] == 255 && bytes[1] == 216 && bytes[2] == 255;
            &&& plan is JxlPassthrough <==> named
            &&& plan is JpegToJxl <==> !named && jpeg
            &&& plan is RasterToJxl <==> !named && !jpeg
        }),
{
}

/// A run of the encoder counts where it succeeded and gave output, and that output is what it gave.
pub proof fn encoders_have_to_give_output(
    success: bool,
    status: Seq<char>,
    stderr: Seq<char>,
    output: Seq<u8>,
)
    ensures
        ({
            let r = crush::encoder_verdict(success, status, stderr, output);
            &&& r is Ok <==> success && output.len() > 0
            &&& r is Ok ==> r == Ok::<Seq<u8>, Seq<char>>(output)
            &&& !success ==> r == Err::<Seq<u8>, Seq<char>>(
                "cjxl exited "@ + status + ": "@ + config::trimmed(stderr),
            )
            &&& success && output.len() == 0 ==> r == Err::<Seq<u8>, Seq<char>>(
                "cjxl produced no output"@,
            )
        }),
{
}

/// The encoder is asked to lose nothing, with all effort and in silence.
pub proof fn encoders_are_asked_to_lose_nothing()
    ensures
        crush::jpeg_args() == seq!["--lossless_jpeg=1"@, "-e"@, "10"@, "--quiet"@],
        crush::raster_args() == seq!["-d"@, "0"@, "-e"@, "10"@, "--quiet"@],
{
}

/// Where neither way worked, both complaints are passed on, the first one first.
pub proof fn both_complaints_are_passed_on(first: Seq<char>, second: Seq<char>)
    ensures
        crush::fallback_refusal(first, second) == "lossless jpeg transcode failed: "@ + first + ": "@
            + second,
{
}

} // verus!
