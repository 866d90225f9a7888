use vstd::prelude::*;

verus! {

/// What `std::path::Path::extension` yields for a path: the part of the file
/// name after its last `.`, if the name has one that does not lead it.
pub uninterp spec fn extension_of(path: Seq<char>) -> Option<Seq<char>>;

/// What `str::to_lowercase` yields for a string.
pub uninterp spec fn lower_of(s: Seq<char>) -> Seq<char>;

/// Relies on `std::path::Path::extension`. A `&str` path is valid UTF-8, so
/// its extension converts to a `String` unchanged.
#[verifier::external_body]
fn path_extension(path: &str) -> (r: Option<String>)
    ensures
        r is Some <==> extension_of(path@) is Some,
        r matches Some(e) ==> extension_of(path@) == Some(e@),
{
    std::path::Path::new(path).extension().map(|e| e.to_string_lossy().into_owned())
}

/// Relies on `str::to_lowercase`: its result depends on the characters alone.
#[verifier::external_body]
fn lowercase(s: &str) -> (r: String)
    ensures
        r@ == lower_of(s@),
{
    s.to_lowercase()
}

/// The raster formats the collection is scanned for, by lower-case extension.
pub open spec fn is_supported_extension(e: Seq<char>) -> bool {
    e == "jpg"@ || e == "png"@ || e == "gif"@ || e == "jpeg"@ || e == "bmp"@ || e == "tiff"@
        || e == "webp"@
}

/// Whether a lower-case extension names a supported raster format.
pub fn is_supported_extension_name(e: &String) -> (r: bool)
    ensures
        r == is_supported_extension(e@),
{
    *e == String::from_str("jpg") || *e == String::from_str("png") || *e == String::from_str("gif")
        || *e == String::from_str("jpeg") || *e == String::from_str("bmp") || *e
        == String::from_str("tiff") || *e == String::from_str("webp")
}

/// Whether the file at `path` is one the collection takes: its extension,
/// in any letter case, names a supported raster format.
pub fn is_supported_image(path: &str) -> (r: bool)
    ensures
        r == (extension_of(path@) matches Some(e) && is_supported_extension(lower_of(e))),
{
    match path_extension(path) {
        Some(ext) => {
            let lower = lowercase(ext.as_str());
            is_supported_extension_name(&lower)
        },
        None => false,
    }
}

/// Walks a directory tree for images; the walk itself is file-system work
/// done by its caller, which keeps the files that `is_supported_image` takes.
pub struct ImageScanner {}

impl ImageScanner {
    pub fn new() -> (r: Self) {
        ImageScanner {  }
    }
}

} // verus!
