//! Metadata is taken out of files before they are sent.
//!
//! Pictures are decoded and encoded again, which leaves only the picture. Types
//! of files whose metadata cannot be taken out safely are refused, unless the
//! sender asks to send them as they are.
use vstd::prelude::*;

use crate::bytes::copy_bytes;
use crate::channel::Record;
use crate::text::{has_prefix, join2, join3, same_text, starts_with};

verus! {

#[verifier::external_type_specification]
#[verifier::external_body]
pub struct ExDynamicImage(image::DynamicImage);

#[verifier::external_type_specification]
#[verifier::external_body]
pub struct ExImageError(image::ImageError);

/// The type of a file that its first bytes betray, if any.
pub uninterp spec fn sniffed_mime(bytes: Seq<u8>) -> Option<Seq<char>>;

/// The bytes look like a program.
pub uninterp spec fn sniffs_as_app(bytes: Seq<u8>) -> bool;

/// `infer::get`: the type of a file by its magic number, as a MIME type; nothing
/// where no known magic number is there. It needs more stack the more skippable
/// frames of a compressed stream stand at the head of the file.
#[verifier::external_body]
pub(crate) fn sniff_mime(bytes: &[u8]) -> (r: Option<String>)
    ensures
        match r {
            Some(m) => sniffed_mime(bytes@) == Some(m@),
            None => sniffed_mime(bytes@) is None,
        },
{
    infer::get(bytes).map(|t| t.mime_type().to_string())
}

/// `infer::is_app`: whether the magic number is that of a program.
#[verifier::external_body]
pub(crate) fn sniff_app(bytes: &[u8]) -> (r: bool)
    ensures
        r == sniffs_as_app(bytes@),
{
    infer::is_app(bytes)
}

/// The formats that pictures are encoded in.
#[derive(Debug, Clone, Copy, PartialEq, Eq, Structural)]
pub enum RasterFormat {
    Jpeg,
    Png,
    WebP,
}

/// A call of the picture codec, with its outcome.
pub enum CodecCall {
    Decode {
        raw: Seq<u8>,
        outcome: Result<image::DynamicImage, image::ImageError>,
    },
    Encode {
        picture: image::DynamicImage,
        format: RasterFormat,
        outcome: Result<Vec<u8>, image::ImageError>,
    },
    Describe {
        error: image::ImageError,
        text: Seq<char>,
    },
}

/// `image::load_from_memory`: decode a picture. Nothing is claimed of the
/// outcome: decoders may differ in the last bit between machines. The record gets
/// the call.
#[verifier::external_body]
fn decode_image(calls: &mut Record<CodecCall>, raw: &[u8]) -> (r: Result<
    image::DynamicImage,
    image::ImageError,
>)
    ensures
        final(calls)@ == old(calls)@.push(CodecCall::Decode { raw: raw@, outcome: r }),
{
    image::load_from_memory(raw)
}

/// The bytes begin as a file of this format does: a JPEG with a start marker and
/// a segment, a PNG with its signature, a WebP with a RIFF header of that type.
pub open spec fn has_magic(bytes: Seq<u8>, format: RasterFormat) -> bool {
    match format {
        RasterFormat::Jpeg => bytes.len() >= 3 && bytes.take(3) == seq![0xFFu8, 0xD8u8, 0xFFu8],
        RasterFormat::Png => bytes.len() >= 8 && bytes.take(8)
            == seq![0x89u8, 0x50u8, 0x4Eu8, 0x47u8, 0x0Du8, 0x0Au8, 0x1Au8, 0x0Au8],
        RasterFormat::WebP => bytes.len() >= 12 && bytes.take(4)
            == seq![0x52u8, 0x49u8, 0x46u8, 0x46u8] && bytes.subrange(8, 12)
            == seq![0x57u8, 0x45u8, 0x42u8, 0x50u8],
    }
}

/// `DynamicImage::write_to`: encode a picture in a format. The bytes begin as that
/// format does. Nothing more is claimed of them, nor when encoding fails: what the
/// encoders write may differ between machines. The record gets the call.
#[verifier::external_body]
fn encode_image(
    calls: &mut Record<CodecCall>,
    img: &image::DynamicImage,
    format: RasterFormat,
) -> (r: Result<Vec<u8>, image::ImageError>)
    ensures
        final(calls)@ == old(calls)@.push(
            CodecCall::Encode { picture: *img, format, outcome: r },
        ),
        r matches Ok(bytes) ==> has_magic(bytes@, format),
{
    let mut out = Vec::new();
    let target = match format {
        RasterFormat::Jpeg => image::ImageFormat::Jpeg,
        RasterFormat::Png => image::ImageFormat::Png,
        RasterFormat::WebP => image::ImageFormat::WebP,
    };
    img.write_to(&mut std::io::Cursor::new(&mut out), target).map(|()| out)
}

/// `ImageError::to_string`: what went wrong, in words. Nothing is claimed of the
/// words. The record gets them.
#[verifier::external_body]
fn image_error_text(calls: &mut Record<CodecCall>, e: &image::ImageError) -> (text: String)
    ensures
        final(calls)@ == old(calls)@.push(CodecCall::Describe { error: *e, text: text@ }),
{
    e.to_string()
}

/// A file ready to be sent.
#[derive(Debug)]
pub struct CleanedFile {
    /// What to send.
    pub bytes: Vec<u8>,
    /// The type of what is sent.
    pub mime: String,
    /// Whether metadata was taken out.
    pub stripped: bool,
}

/// Why a file is not sent.
#[derive(Debug, PartialEq, Eq)]
pub enum SanitizeError {
    /// The metadata of this format cannot be taken out safely.
    UnsupportedFormat(&'static str),
    /// The format is not known.
    UnknownFormat,
    /// The picture cannot be decoded.
    DecodeFailed(String),
    /// The picture cannot be encoded.
    EncodeFailed(String),
    /// The file cannot be read.
    IoError(String),
}

impl SanitizeError {
    /// What the error says.
    pub open spec fn text(self) -> Seq<char> {
        match self {
            SanitizeError::UnsupportedFormat(name) => "format `"@ + name@
                + "` has metadata Onyx can't safely strip; pass --no-strip-metadata to send anyway with the leak documented in FILES.md §3.2"@,
            SanitizeError::UnknownFormat =>
                "could not identify the file format from content; pass --no-strip-metadata to send as application/octet-stream"@,
            SanitizeError::DecodeFailed(detail) => "image decode failed: "@ + detail@,
            SanitizeError::EncodeFailed(detail) => "image re-encode failed: "@ + detail@,
            SanitizeError::IoError(detail) => "I/O error: "@ + detail@,
        }
    }

    pub fn message(&self) -> (s: String)
        ensures
            s@ == self.text(),
    {
        match self {
            SanitizeError::UnsupportedFormat(name) => join3(
                "format `",
                name,
                "` has metadata Onyx can't safely strip; pass --no-strip-metadata to send anyway with the leak documented in FILES.md §3.2",
            ),
            SanitizeError::UnknownFormat =>
            "could not identify the file format from content; pass --no-strip-metadata to send as application/octet-stream".to_owned(),
            SanitizeError::DecodeFailed(detail) => join2("image decode failed: ", detail.as_str()),
            SanitizeError::EncodeFailed(detail) => join2(
                "image re-encode failed: ",
                detail.as_str(),
            ),
            SanitizeError::IoError(detail) => join2("I/O error: ", detail.as_str()),
        }
    }
}

/// What the sender wants.
#[derive(Debug, Clone, Copy)]
pub struct SanitizeOpts {
    /// Send the file as it is.
    pub keep_metadata: bool,
}

impl Default for SanitizeOpts {
    fn default() -> (o: Self)
        ensures
            !o.keep_metadata,
    {
        SanitizeOpts { keep_metadata: false }
    }
}

/// How a type of file is treated.
#[derive(Debug, Clone, Copy, PartialEq, Eq, Structural)]
pub enum Treatment {
    /// Decode it and encode it in this format.
    Reencode(RasterFormat),
    /// Refuse it as a GIF, whose frames would be lost.
    Gif,
    /// Refuse it as an HEIC picture.
    Heic,
    /// Refuse it as a PDF.
    Pdf,
    /// Refuse it as an office document.
    Office,
    /// Refuse it as a film.
    Video,
    /// Refuse it as a sound.
    Audio,
    /// Refuse it as an archive.
    Archive,
    /// Refuse it: its format is not known.
    Unknown,
    /// Refuse it as plain text.
    PlainText,
    /// Refuse it: nothing is known of its metadata.
    Other,
}

/// How a type of file is treated.
pub open spec fn treatment_of(mime: Seq<char>) -> Treatment {
    if mime == "image/jpeg"@ {
        Treatment::Reencode(RasterFormat::Jpeg)
    } else if mime == "image/png"@ || mime == "image/tiff"@ || mime == "image/bmp"@ {
        Treatment::Reencode(RasterFormat::Png)
    } else if mime == "image/webp"@ {
        Treatment::Reencode(RasterFormat::WebP)
    } else if mime == "image/gif"@ {
        Treatment::Gif
    } else if mime == "image/heic"@ || mime == "image/heif"@ {
        Treatment::Heic
    } else if mime == "application/pdf"@ {
        Treatment::Pdf
    } else if mime
        == "application/vnd.openxmlformats-officedocument.wordprocessingml.document"@ || mime
        == "application/vnd.openxmlformats-officedocument.spreadsheetml.sheet"@ || mime
        == "application/vnd.openxmlformats-officedocument.presentationml.presentation"@ || mime
        == "application/vnd.oasis.opendocument.text"@ || mime == "application/msword"@ {
        Treatment::Office
    } else if starts_with(mime, "video/"@) {
        Treatment::Video
    } else if starts_with(mime, "audio/"@) {
        Treatment::Audio
    } else if starts_with(mime, "application/zip"@) || starts_with(mime, "application/x-tar"@)
        || starts_with(mime, "application/x-7z-compressed"@) || starts_with(
        mime,
        "application/x-rar"@,
    ) {
        Treatment::Archive
    } else if mime == "application/octet-stream"@ {
        Treatment::Unknown
    } else if mime == "text/plain"@ {
        Treatment::PlainText
    } else {
        Treatment::Other
    }
}

/// How to treat a type of file.
pub fn treatment(mime: &str) -> (t: Treatment)
    ensures
        t == treatment_of(mime@),
{
    if same_text(mime, "image/jpeg") {
        Treatment::Reencode(RasterFormat::Jpeg)
    } else if same_text(mime, "image/png") || same_text(mime, "image/tiff") || same_text(
        mime,
        "image/bmp",
    ) {
        Treatment::Reencode(RasterFormat::Png)
    } else if same_text(mime, "image/webp") {
        Treatment::Reencode(RasterFormat::WebP)
    } else if same_text(mime, "image/gif") {
        Treatment::Gif
    } else if same_text(mime, "image/heic") || same_text(mime, "image/heif") {
        Treatment::Heic
    } else if same_text(mime, "application/pdf") {
        Treatment::Pdf
    } else if same_text(
        mime,
        "application/vnd.openxmlformats-officedocument.wordprocessingml.document",
    ) || same_text(mime, "application/vnd.openxmlformats-officedocument.spreadsheetml.sheet")
        || same_text(
        mime,
        "application/vnd.openxmlformats-officedocument.presentationml.presentation",
    ) || same_text(mime, "application/vnd.oasis.opendocument.text") || same_text(
        mime,
        "application/msword",
    ) {
        Treatment::Office
    } else if has_prefix(mime, "video/") {
        Treatment::Video
    } else if has_prefix(mime, "audio/") {
        Treatment::Audio
    } else if has_prefix(mime, "application/zip") || has_prefix(mime, "application/x-tar")
        || has_prefix(mime, "application/x-7z-compressed") || has_prefix(mime, "application/x-rar") {
        Treatment::Archive
    } else if same_text(mime, "application/octet-stream") {
        Treatment::Unknown
    } else if same_text(mime, "text/plain") {
        Treatment::PlainText
    } else {
        Treatment::Other
    }
}

/// The type of a picture in a format.
pub open spec fn format_mime(format: RasterFormat) -> Seq<char> {
    match format {
        RasterFormat::Jpeg => "image/jpeg"@,
        RasterFormat::Png => "image/png"@,
        RasterFormat::WebP => "image/webp"@,
    }
}

fn mime_of_format(format: RasterFormat) -> (s: String)
    ensures
        s@ == format_mime(format),
{
    match format {
        RasterFormat::Jpeg => "image/jpeg".to_owned(),
        RasterFormat::Png => "image/png".to_owned(),
        RasterFormat::WebP => "image/webp".to_owned(),
    }
}

/// The name under which a type of file is refused.
pub open spec fn refusal_name(t: Treatment) -> Seq<char> {
    match t {
        Treatment::Gif => "image/gif"@,
        Treatment::Heic => "image/heic"@,
        Treatment::Pdf => "application/pdf"@,
        Treatment::Office => "office document"@,
        Treatment::Video => "video"@,
        Treatment::Audio => "audio"@,
        Treatment::Archive => "archive"@,
        Treatment::PlainText => "text/plain"@,
        _ => "unknown"@,
    }
}

fn refusal(t: Treatment) -> (e: SanitizeError)
    requires
        !(t is Reencode),
    ensures
        if t is Unknown {
            e is UnknownFormat
        } else {
            e matches SanitizeError::UnsupportedFormat(name) && name@ == refusal_name(t)
        },
{
    match t {
        Treatment::Gif => SanitizeError::UnsupportedFormat("image/gif"),
        Treatment::Heic => SanitizeError::UnsupportedFormat("image/heic"),
        Treatment::Pdf => SanitizeError::UnsupportedFormat("application/pdf"),
        Treatment::Office => SanitizeError::UnsupportedFormat("office document"),
        Treatment::Video => SanitizeError::UnsupportedFormat("video"),
        Treatment::Audio => SanitizeError::UnsupportedFormat("audio"),
        Treatment::Archive => SanitizeError::UnsupportedFormat("archive"),
        Treatment::Unknown => SanitizeError::UnknownFormat,
        Treatment::PlainText => SanitizeError::UnsupportedFormat("text/plain"),
        _ => SanitizeError::UnsupportedFormat("unknown"),
    }
}

/// The type of a file by its content: bytes without a known magic number count
/// as a plain stream.
pub open spec fn effective_mime(sniffed: Option<Seq<char>>) -> Seq<char> {
    match sniffed {
        Some(m) => m,
        None => "application/octet-stream"@,
    }
}

/// This call put the error of another call into these words.
pub open spec fn is_description(c: CodecCall, error: image::ImageError, text: Seq<char>) -> bool {
    c == (CodecCall::Describe { error, text })
}

/// A picture was decoded and encoded again by these calls: what comes out is what
/// the encoder made of what the decoder read, and it fails exactly where one of
/// the two does, with the words of that error.
pub open spec fn is_reencoding(
    calls: Seq<CodecCall>,
    raw: Seq<u8>,
    format: RasterFormat,
    r: Result<CleanedFile, SanitizeError>,
) -> bool {
    &&& calls.len() > 0
    &&& calls[0] matches CodecCall::Decode { raw: read, outcome: decoded } && read == raw
        && match decoded {
        Err(error) => calls.len() == 2 && (r matches Err(SanitizeError::DecodeFailed(text))
            && is_description(calls[1], error, text@)),
        Ok(img) => calls.len() >= 2 && (calls[1] matches CodecCall::Encode {
            picture,
            format: f,
            outcome: encoded,
        } && picture == img && f == format && match encoded {
            Err(error) => calls.len() == 3 && (r matches Err(SanitizeError::EncodeFailed(text))
                && is_description(calls[2], error, text@)),
            Ok(bytes) => {
                &&& calls.len() == 2
                &&& r matches Ok(c) && c.stripped && c.mime@ == format_mime(format) && c.bytes@
                    == bytes@
                &&& has_magic(bytes@, format)
            },
        }),
    }
}

/// What is owed for a file of a type, given the calls of the picture codec.
pub open spec fn sanitize_outcome(
    raw: Seq<u8>,
    keep_metadata: bool,
    mime: Seq<char>,
    calls: Seq<CodecCall>,
    r: Result<CleanedFile, SanitizeError>,
) -> bool {
    if keep_metadata {
        calls.len() == 0 && (r matches Ok(c) && c.bytes@ == raw && c.mime@ == mime && !c.stripped)
    } else {
        match treatment_of(mime) {
            Treatment::Reencode(format) => is_reencoding(calls, raw, format, r),
            Treatment::Unknown => calls.len() == 0 && (r matches Err(e) && e is UnknownFormat),
            t => calls.len() == 0 && (r matches Err(SanitizeError::UnsupportedFormat(name))
                && name@ == refusal_name(t)),
        }
    }
}

/// Make a file ready to be sent: take its metadata out, or refuse it. The record
/// gets the calls of the picture codec.
pub fn sanitize_bytes(calls: &mut Record<CodecCall>, raw: &[u8], opts: SanitizeOpts) -> (r: Result<
    CleanedFile,
    SanitizeError,
>)
    ensures
        final(calls)@.len() >= old(calls)@.len(),
        final(calls)@.take(old(calls)@.len() as int) == old(calls)@,
        sanitize_outcome(
            raw@,
            opts.keep_metadata,
            effective_mime(sniffed_mime(raw@)),
            final(calls)@.skip(old(calls)@.len() as int),
            r,
        ),
{
    let mime = match sniff_mime(raw) {
        Some(m) => m,
        None => "application/octet-stream".to_owned(),
    };
    sanitize_as(calls, raw, opts, mime)
}

/// Like [`sanitize_bytes`], for a file whose type is known.
pub fn sanitize_as(
    calls: &mut Record<CodecCall>,
    raw: &[u8],
    opts: SanitizeOpts,
    mime: String,
) -> (r: Result<CleanedFile, SanitizeError>)
    ensures
        final(calls)@.len() >= old(calls)@.len(),
        final(calls)@.take(old(calls)@.len() as int) == old(calls)@,
        sanitize_outcome(
            raw@,
            opts.keep_metadata,
            mime@,
            final(calls)@.skip(old(calls)@.len() as int),
            r,
        ),
{
    proof {
        assert(calls@.take(calls@.len() as int) =~= calls@);
        assert(calls@.skip(calls@.len() as int) =~= Seq::<CodecCall>::empty());
    }
    if opts.keep_metadata {
        return Ok(CleanedFile { bytes: copy_bytes(raw), mime, stripped: false });
    }
    match treatment(mime.as_str()) {
        Treatment::Reencode(format) => reencode_raster(calls, raw, format),
        t => Err(refusal(t)),
    }
}

/// Decode a picture and encode it again.
fn reencode_raster(calls: &mut Record<CodecCall>, raw: &[u8], format: RasterFormat) -> (r: Result<
    CleanedFile,
    SanitizeError,
>)
    ensures
        final(calls)@.len() >= old(calls)@.len(),
        final(calls)@.take(old(calls)@.len() as int) == old(calls)@,
        is_reencoding(final(calls)@.skip(old(calls)@.len() as int), raw@, format, r),
{
    let ghost before = calls@;
    let decoded = decode_image(calls, raw);
    proof {
        assert(calls@.take(before.len() as int) =~= before);
        assert(calls@.skip(before.len() as int)[0] == CodecCall::Decode {
            raw: raw@,
            outcome: decoded,
        });
    }
    let img = match decoded {
        Err(e) => {
            let text = image_error_text(calls, &e);
            proof {
                assert(calls@.take(before.len() as int) =~= before);
                let new = calls@.skip(before.len() as int);
                assert(new[0] == CodecCall::Decode { raw: raw@, outcome: decoded });
                assert(is_description(new[1], e, text@));
            }
            return finish_reencode(Err(ReencodeFailure::Decode(text)), format);
        },
        Ok(img) => img,
    };
    let encoded = encode_image(calls, &img, format);
    proof {
        assert(calls@.take(before.len() as int) =~= before);
        let new = calls@.skip(before.len() as int);
        assert(new[0] == CodecCall::Decode { raw: raw@, outcome: Ok(img) });
        assert(new[1] == CodecCall::Encode { picture: img, format, outcome: encoded });
    }
    match encoded {
        Err(e) => {
            let text = image_error_text(calls, &e);
            proof {
                assert(calls@.take(before.len() as int) =~= before);
                let new = calls@.skip(before.len() as int);
                assert(new[0] == CodecCall::Decode { raw: raw@, outcome: Ok(img) });
                assert(new[1] == CodecCall::Encode { picture: img, format, outcome: encoded });
                assert(is_description(new[2], e, text@));
            }
            finish_reencode(Err(ReencodeFailure::Encode(text)), format)
        },
        Ok(bytes) => finish_reencode(Ok(bytes), format),
    }
}

/// Where the picture codec failed.
#[derive(Debug)]
pub enum ReencodeFailure {
    Decode(String),
    Encode(String),
}

/// What the picture codec's outcome means for a file.
pub fn finish_reencode(
    outcome: Result<Vec<u8>, ReencodeFailure>,
    format: RasterFormat,
) -> (r: Result<CleanedFile, SanitizeError>)
    ensures
        match outcome {
            Ok(bytes) => r matches Ok(c) && c.bytes@ == bytes@ && c.mime@ == format_mime(format)
                && c.stripped,
            Err(ReencodeFailure::Decode(detail)) => r matches Err(SanitizeError::DecodeFailed(d))
                && d@ == detail@,
            Err(ReencodeFailure::Encode(detail)) => r matches Err(SanitizeError::EncodeFailed(d))
                && d@ == detail@,
        },
{
    match outcome {
        Ok(bytes) => Ok(CleanedFile { bytes, mime: mime_of_format(format), stripped: true }),
        Err(ReencodeFailure::Decode(detail)) => Err(SanitizeError::DecodeFailed(detail)),
        Err(ReencodeFailure::Encode(detail)) => Err(SanitizeError::EncodeFailed(detail)),
    }
}

/// Unless the sender asked to keep the metadata, what is sent is what the encoder
/// wrote for the picture that the decoder read, in the format that it is announced
/// in; nothing else is sent.
pub proof fn law_only_reencoded_pictures_are_sent(
    raw: Seq<u8>,
    mime: Seq<char>,
    calls: Seq<CodecCall>,
    r: Result<CleanedFile, SanitizeError>,
)
    requires
        sanitize_outcome(raw, false, mime, calls, r),
        r is Ok,
    ensures
        r->Ok_0.stripped,
        treatment_of(mime) matches Treatment::Reencode(format) && {
            &&& r->Ok_0.mime@ == format_mime(format)
            &&& has_magic(r->Ok_0.bytes@, format)
            &&& calls.last() matches CodecCall::Encode { format: f, outcome: Ok(bytes), .. } && f
                == format && bytes@ == r->Ok_0.bytes@
        },
{
}

/// A sender who keeps the metadata sends the file as it is; one who does not sends
/// pictures only, of the types that can be decoded and encoded again, and never the bytes
/// that were read.
pub proof fn law_what_is_sent(
    raw: Seq<u8>,
    keep_metadata: bool,
    mime: Seq<char>,
    calls: Seq<CodecCall>,
    r: Result<CleanedFile, SanitizeError>,
)
    requires
        sanitize_outcome(raw, keep_metadata, mime, calls, r),
    ensures
        keep_metadata ==> (r matches Ok(c) && c.bytes@ == raw && c.mime@ == mime && !c.stripped)
            && calls.len() == 0,
        !keep_metadata && r is Ok ==> {
            &&& r->Ok_0.stripped
            &&& mime == "image/jpeg"@ || mime == "image/png"@ || mime == "image/tiff"@ || mime
                == "image/bmp"@ || mime == "image/webp"@
            &&& calls.len() == 2
            &&& calls[0] matches CodecCall::Decode { raw: read, outcome: Ok(img) }
            &&& read == raw
            &&& calls[1] matches CodecCall::Encode { picture, format, outcome: Ok(bytes) }
            &&& picture == img
            &&& bytes@ == r->Ok_0.bytes@
        },
        !keep_metadata && r is Err && r->Err_0 is UnknownFormat ==> mime
            == "application/octet-stream"@,
        !keep_metadata && calls.len() > 0 ==> mime == "image/jpeg"@ || mime == "image/png"@ || mime
            == "image/tiff"@ || mime == "image/bmp"@ || mime == "image/webp"@,
{
}

/// In which format a picture is encoded again: JPEG and WebP as they are, all others
/// without loss as PNG; it is announced as what it is.
pub proof fn law_formats(mime: Seq<char>, format: RasterFormat)
    requires
        treatment_of(mime) == Treatment::Reencode(format),
    ensures
        format is Jpeg <==> mime == "image/jpeg"@,
        format is WebP ==> mime == "image/webp"@,
        mime == "image/jpeg"@ ==> format_mime(format) == mime,
        format is Png ==> format_mime(format) == "image/png"@ && (mime == "image/png"@ || mime
            == "image/tiff"@ || mime == "image/bmp"@),
        format is WebP ==> format_mime(format) == "image/webp"@,
{
}

/// Pictures of these types are decoded and encoded again; whatever begins with `video/` or
/// `audio/` is not.
pub proof fn law_treatments(mime: Seq<char>, rest: Seq<char>)
    ensures
        mime == "image/jpeg"@ || mime == "image/png"@ || mime == "image/tiff"@ || mime
            == "image/bmp"@ || mime == "image/webp"@ ==> treatment_of(mime) is Reencode,
        !(treatment_of("video/"@ + rest) is Reencode),
        !(treatment_of("audio/"@ + rest) is Reencode),
{
    reveal_strlit("video/");
    reveal_strlit("audio/");
    reveal_strlit("image/jpeg");
    reveal_strlit("image/png");
    reveal_strlit("image/tiff");
    reveal_strlit("image/bmp");
    reveal_strlit("image/webp");
    assert(("video/"@ + rest)[0] == 'v');
    assert(("audio/"@ + rest)[0] == 'a');
}

/// The literals that types are compared with differ from one another.
proof fn lemma_types()
    ensures
        treatment_of("image/gif"@) == Treatment::Gif,
        treatment_of("image/heic"@) == Treatment::Heic,
        treatment_of("image/heif"@) == Treatment::Heic,
        treatment_of("application/pdf"@) == Treatment::Pdf,
        treatment_of("application/msword"@) == Treatment::Office,
        treatment_of("application/octet-stream"@) == Treatment::Unknown,
        treatment_of("text/plain"@) == Treatment::PlainText,
{
    reveal_strlit("image/jpeg");
    reveal_strlit("image/png");
    reveal_strlit("image/tiff");
    reveal_strlit("image/bmp");
    reveal_strlit("image/webp");
    reveal_strlit("image/gif");
    reveal_strlit("image/heic");
    reveal_strlit("image/heif");
    reveal_strlit("application/pdf");
    reveal_strlit("application/vnd.openxmlformats-officedocument.wordprocessingml.document");
    reveal_strlit("application/vnd.openxmlformats-officedocument.spreadsheetml.sheet");
    reveal_strlit("application/vnd.openxmlformats-officedocument.presentationml.presentation");
    reveal_strlit("application/vnd.oasis.opendocument.text");
    reveal_strlit("application/msword");
    reveal_strlit("video/");
    reveal_strlit("audio/");
    reveal_strlit("application/zip");
    reveal_strlit("application/x-tar");
    reveal_strlit("application/x-7z-compressed");
    reveal_strlit("application/x-rar");
    reveal_strlit("application/octet-stream");
    reveal_strlit("text/plain");
    let gif = "image/gif"@;
    let heic = "image/heic"@;
    let heif = "image/heif"@;
    let pdf = "application/pdf"@;
    let word = "application/msword"@;
    let stream = "application/octet-stream"@;
    let plain = "text/plain"@;
    assert(gif[6] == 'g' && heic[6] == 'h' && heif[6] == 'h' && pdf[12] == 'p' && word[12] == 'm'
        && stream[12] == 'o' && plain[0] == 't');
    assert(gif[0] == 'i' && heic[0] == 'i' && heif[0] == 'i' && pdf[0] == 'a' && word[0] == 'a'
        && stream[0] == 'a');
    assert("image/jpeg"@[6] == 'j' && "image/png"@[6] == 'p' && "image/tiff"@[6] == 't'
        && "image/bmp"@[6] == 'b' && "image/webp"@[6] == 'w');
    assert("image/jpeg"@[0] == 'i' && "image/png"@[0] == 'i' && "image/tiff"@[0] == 'i'
        && "image/bmp"@[0] == 'i' && "image/webp"@[0] == 'i');
    assert("application/vnd.openxmlformats-officedocument.wordprocessingml.document"@[12] == 'v');
    assert("application/vnd.openxmlformats-officedocument.spreadsheetml.sheet"@[12] == 'v');
    assert("application/vnd.openxmlformats-officedocument.presentationml.presentation"@[12] == 'v');
    assert("application/vnd.oasis.opendocument.text"@[12] == 'v');
    assert(stream.take(6)[0] == 'a' && stream.take(6)[1] == 'p' && plain.take(6)[0] == 't');
    assert("video/"@[0] == 'v' && "audio/"@[1] == 'u' && "audio/"@[0] == 'a');
    assert("application/zip"@[12] == 'z' && "application/x-tar"@[12] == 'x'
        && "application/x-7z-compressed"@[12] == 'x' && "application/x-rar"@[12] == 'x');
    assert("application/zip"@[0] == 'a' && "application/x-tar"@[0] == 'a'
        && "application/x-7z-compressed"@[0] == 'a' && "application/x-rar"@[0] == 'a');
    assert(starts_with(stream, "application/zip"@) ==> stream.take(15)[12] == 'z');
    assert(starts_with(stream, "application/x-tar"@) ==> stream.take(17)[12] == 'x');
    assert(starts_with(stream, "application/x-rar"@) ==> stream.take(17)[12] == 'x');
    assert("application/x-7z-compressed"@.len() == 27 && stream.len() == 24);
    assert("application/zip"@.len() == 15 && "application/x-tar"@.len() == 17
        && "application/x-rar"@.len() == 17 && plain.len() == 10);
}

/// What a sender is told who does not keep the metadata of a file that cannot be cleaned:
/// the name of its type, and for bytes of no known type that their format is not known.
pub proof fn law_refusals_name_the_type(
    raw: Seq<u8>,
    mime: Seq<char>,
    calls: Seq<CodecCall>,
    r: Result<CleanedFile, SanitizeError>,
)
    requires
        sanitize_outcome(raw, false, mime, calls, r),
    ensures
        mime == "image/gif"@ ==> refused_as(r, "image/gif"@),
        mime == "image/heic"@ || mime == "image/heif"@ ==> refused_as(r, "image/heic"@),
        mime == "application/pdf"@ ==> refused_as(r, "application/pdf"@),
        mime == "application/msword"@ ==> refused_as(r, "office document"@),
        mime == "text/plain"@ ==> refused_as(r, "text/plain"@),
        mime == "application/octet-stream"@ ==> r is Err && r->Err_0 is UnknownFormat,
        mime == effective_mime(None) ==> r is Err && r->Err_0 is UnknownFormat,
        treatment_of(mime) is Video ==> refused_as(r, "video"@),
        treatment_of(mime) is Audio ==> refused_as(r, "audio"@),
        treatment_of(mime) is Archive ==> refused_as(r, "archive"@),
        treatment_of(mime) is Other ==> refused_as(r, "unknown"@),
{
    lemma_types();
}

/// The file is refused under this name.
pub open spec fn refused_as(r: Result<CleanedFile, SanitizeError>, name: Seq<char>) -> bool {
    r matches Err(SanitizeError::UnsupportedFormat(n)) && n@ == name
}

/// A type that the bytes betray is the type of the file.
pub proof fn law_betrayed_type_counts(mime: Seq<char>)
    ensures
        effective_mime(Some(mime)) == mime,
{
}

/// Whatever begins with `video/` is a film, with `audio/` a sound, and with one of four
/// names an archive.
pub proof fn law_families_of_types(rest: Seq<char>)
    ensures
        treatment_of("video/"@ + rest) is Video,
        treatment_of("audio/"@ + rest) is Audio,
        treatment_of("application/zip"@ + rest) is Archive,
        treatment_of("application/x-tar"@ + rest) is Archive,
        treatment_of("application/x-7z-compressed"@ + rest) is Archive,
        treatment_of("application/x-rar"@ + rest) is Archive,
{
    reveal_strlit("image/jpeg");
    reveal_strlit("image/png");
    reveal_strlit("image/tiff");
    reveal_strlit("image/bmp");
    reveal_strlit("image/webp");
    reveal_strlit("image/gif");
    reveal_strlit("image/heic");
    reveal_strlit("image/heif");
    reveal_strlit("application/pdf");
    reveal_strlit("application/vnd.openxmlformats-officedocument.wordprocessingml.document");
    reveal_strlit("application/vnd.openxmlformats-officedocument.spreadsheetml.sheet");
    reveal_strlit("application/vnd.openxmlformats-officedocument.presentationml.presentation");
    reveal_strlit("application/vnd.oasis.opendocument.text");
    reveal_strlit("application/msword");
    reveal_strlit("video/");
    reveal_strlit("audio/");
    reveal_strlit("application/zip");
    reveal_strlit("application/x-tar");
    reveal_strlit("application/x-7z-compressed");
    reveal_strlit("application/x-rar");
    assert("image/jpeg"@[0] == 'i' && "image/png"@[0] == 'i' && "image/tiff"@[0] == 'i'
        && "image/bmp"@[0] == 'i' && "image/webp"@[0] == 'i' && "image/gif"@[0] == 'i'
        && "image/heic"@[0] == 'i' && "image/heif"@[0] == 'i');
    let pdf = "application/pdf"@;
    let a = "application/vnd.openxmlformats-officedocument.wordprocessingml.document"@;
    let b = "application/vnd.openxmlformats-officedocument.spreadsheetml.sheet"@;
    let c = "application/vnd.openxmlformats-officedocument.presentationml.presentation"@;
    let d = "application/vnd.oasis.opendocument.text"@;
    let e = "application/msword"@;
    assert(pdf[0] == 'a' && a[0] == 'a' && b[0] == 'a' && c[0] == 'a' && d[0] == 'a' && e[0] == 'a');
    assert(pdf[1] == 'p' && a[1] == 'p' && b[1] == 'p' && c[1] == 'p' && d[1] == 'p' && e[1] == 'p');
    assert(pdf[12] == 'p' && a[12] == 'v' && b[12] == 'v' && c[12] == 'v' && d[12] == 'v' && e[12]
        == 'm');
    let video = "video/"@ + rest;
    let audio = "audio/"@ + rest;
    assert(video[0] == 'v' && audio[0] == 'a' && audio[1] == 'u');
    assert(video.take(6) =~= "video/"@);
    assert(audio.take(6) =~= "audio/"@);
    assert(audio.take(6)[1] == 'u');
    let zip = "application/zip"@ + rest;
    let tar = "application/x-tar"@ + rest;
    let seven = "application/x-7z-compressed"@ + rest;
    let rar = "application/x-rar"@ + rest;
    assert(zip[0] == 'a' && zip[1] == 'p' && zip[12] == 'z');
    assert(tar[0] == 'a' && tar[1] == 'p' && tar[12] == 'x');
    assert(seven[0] == 'a' && seven[1] == 'p' && seven[12] == 'x');
    assert(rar[0] == 'a' && rar[1] == 'p' && rar[12] == 'x');
    assert(zip.take(6)[1] == 'p' && tar.take(6)[1] == 'p' && seven.take(6)[1] == 'p' && rar.take(
        6,
    )[1] == 'p');
    assert("video/"@[0] == 'v' && "audio/"@[1] == 'u' && "video/"@[1] == 'i');
    assert(zip.take(15) =~= "application/zip"@);
    assert(tar.take(17) =~= "application/x-tar"@);
    assert(seven.take(27) =~= "application/x-7z-compressed"@);
    assert(rar.take(17) =~= "application/x-rar"@);
}

} // verus!
