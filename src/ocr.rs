//! Routing of text extraction by MIME type and file extension.

use vstd::prelude::*;
use crate::text::str_eq;

verus! {

/// What `Path::extension` gives for a path, as text.
pub uninterp spec fn extension_of(path: Seq<char>) -> Option<Seq<char>>;

/// What `str::to_lowercase` gives for a string.
pub uninterp spec fn lower_of(s: Seq<char>) -> Seq<char>;

/// Relies on `std::path::Path::extension` (and `OsStr::to_str`): the extension
/// of the last path component, a function of the path's text alone.
#[verifier::external_body]
fn path_extension(path: &str) -> (r: Option<String>)
    ensures
        r.is_some() == extension_of(path@).is_some(),
        r.is_some() ==> r.unwrap()@ == extension_of(path@).unwrap(),
{
    std::path::Path::new(path).extension().and_then(|e| e.to_str()).map(|e| e.to_string())
}

/// Relies on `str::to_lowercase`: the lower-case form, a function of the
/// characters alone.
#[verifier::external_body]
fn lowercase(s: &str) -> (r: String)
    ensures
        r@ == lower_of(s@),
{
    s.to_lowercase()
}

/// Lower-case extensions that are read as images.
pub open spec fn is_image_extension_spec(ext: Seq<char>) -> bool {
    ext == "png"@ || ext == "jpg"@ || ext == "jpeg"@ || ext == "tiff"@ || ext == "bmp"@
        || ext == "gif"@
}

/// MIME types that go to the image recogniser.
pub open spec fn is_image_mime(mime: Seq<char>) -> bool {
    mime == "image/png"@ || mime == "image/jpeg"@ || mime == "image/jpg"@ || mime
        == "image/tiff"@ || mime == "image/bmp"@
}

/// Whether a path names an image, judged by its extension in any case.
pub open spec fn is_image_path(path: Seq<char>) -> bool {
    extension_of(path).is_some() && is_image_extension_spec(lower_of(extension_of(path).unwrap()))
}

/// How a file's text is obtained.
#[derive(Clone, Copy, Debug, PartialEq, Eq, Structural)]
pub enum ExtractionRoute {
    /// Text layer of a PDF document.
    Pdf,
    /// Optical character recognition on an image.
    Image,
    /// The file is read as text.
    PlainText,
    /// The MIME type is not supported and the path is no image.
    Unsupported,
}

/// The route for a file, by its MIME type first and its extension second.
pub open spec fn route_spec(path: Seq<char>, mime: Seq<char>) -> ExtractionRoute {
    if mime == "application/pdf"@ {
        ExtractionRoute::Pdf
    } else if is_image_mime(mime) {
        ExtractionRoute::Image
    } else if mime == "text/plain"@ {
        ExtractionRoute::PlainText
    } else if is_image_path(path) {
        ExtractionRoute::Image
    } else {
        ExtractionRoute::Unsupported
    }
}

/// Decides, from an already lower-cased extension, whether it is an image's.
pub fn is_image_extension(ext: &str) -> (r: bool)
    ensures
        r == is_image_extension_spec(ext@),
{
    str_eq(ext, "png") || str_eq(ext, "jpg") || str_eq(ext, "jpeg") || str_eq(ext, "tiff")
        || str_eq(ext, "bmp") || str_eq(ext, "gif")
}

/// Front end of text extraction: knows which kind of file goes where.
pub struct OcrService {
    /// Language handed to the recogniser when none is given.
    pub default_lang: String,
}

impl OcrService {
    pub fn new() -> (r: Self)
        ensures
            r.default_lang@ == "eng"@,
    {
        OcrService { default_lang: "eng".to_string() }
    }

    /// Whether the path's extension names an image format.
    pub fn is_image_file(&self, file_path: &str) -> (r: bool)
        ensures
            r == is_image_path(file_path@),
    {
        match path_extension(file_path) {
            Some(ext) => {
                let lower = lowercase(ext.as_str());
                is_image_extension(lower.as_str())
            },
            None => false,
        }
    }

    /// Chooses how the text of a file is extracted.
    pub fn extraction_route(&self, file_path: &str, mime_type: &str) -> (r: ExtractionRoute)
        ensures
            r == route_spec(file_path@, mime_type@),
    {
        if str_eq(mime_type, "application/pdf") {
            ExtractionRoute::Pdf
        } else if str_eq(mime_type, "image/png") || str_eq(mime_type, "image/jpeg") || str_eq(
            mime_type,
            "image/jpg",
        ) || str_eq(mime_type, "image/tiff") || str_eq(mime_type, "image/bmp") {
            ExtractionRoute::Image
        } else if str_eq(mime_type, "text/plain") {
            ExtractionRoute::PlainText
        } else if self.is_image_file(file_path) {
            ExtractionRoute::Image
        } else {
            ExtractionRoute::Unsupported
        }
    }
}

} // verus!
