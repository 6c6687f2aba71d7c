//! Document extraction: which extractor a path goes to by its extension, and
//! the extractors that work on bytes already read.
use vstd::prelude::*;
use vstd::utf8::{decode_utf8, valid_utf8};
use crate::cache::opt_string_view;
use crate::paths::{extension_chars, extension_spec, opt_view};
use crate::text::{char_is_alphanumeric, chars_eq, chars_of, unicode_alphanumeric};

verus! {

/// The column width HTML is rendered to.
pub const HTML_RENDER_WIDTH: usize = 200;

/// Below this many alphanumeric characters a PDF's text layer is taken to be
/// a scan.
pub const SCANNED_PDF_ALNUM_THRESHOLD: usize = 50;

/// The kind of source a document's text came from.
#[derive(Debug, Clone, Copy, PartialEq, Eq, Structural)]
pub enum SourceKind {
    Text,
    Html,
    Pdf,
    Docx,
    Xlsx,
    Pptx,
    Png,
    Jpeg,
    Tiff,
    Bmp,
}

/// The text of a document and the kind of source it came from.
#[derive(Debug, Clone, PartialEq, Eq)]
pub struct ExtractedDocument {
    pub text: String,
    pub source_kind: SourceKind,
}

/// Which extractor handles a path.
#[derive(Debug, Clone, Copy, PartialEq, Eq, Structural)]
pub enum ExtractRoute {
    Html,
    Pdf,
    Office(SourceKind),
    Image(SourceKind),
    Utf8,
}

/// Why an extractor failed.
#[derive(Debug, Clone, Copy, PartialEq, Eq, Structural)]
pub enum ExtractError {
    /// The HTML renderer refused the bytes.
    RenderHtml,
    /// The PDF reader refused the bytes.
    ExtractPdf,
}

/// The text `html2text::from_read` renders from `bytes` at `width` columns,
/// or `None` where it fails.
pub uninterp spec fn html_render(bytes: Seq<u8>, width: usize) -> Option<Seq<char>>;

/// Whether the path's extension is `ext`.
pub open spec fn has_extension(path: Seq<char>, ext: Seq<char>) -> bool {
    extension_spec(path) == Some(ext)
}

/// Whether the path names an HTML document.
pub open spec fn html_path(path: Seq<char>) -> bool {
    has_extension(path, "html"@) || has_extension(path, "htm"@)
}

/// Whether the path names a PDF document.
pub open spec fn pdf_path(path: Seq<char>) -> bool {
    has_extension(path, "pdf"@)
}

/// The office format the path names, if any.
pub open spec fn office_kind(path: Seq<char>) -> Option<SourceKind> {
    if has_extension(path, "docx"@) {
        Some(SourceKind::Docx)
    } else if has_extension(path, "xlsx"@) {
        Some(SourceKind::Xlsx)
    } else if has_extension(path, "pptx"@) {
        Some(SourceKind::Pptx)
    } else {
        None
    }
}

/// The image format the path names, if any.
pub open spec fn image_kind(path: Seq<char>) -> Option<SourceKind> {
    if has_extension(path, "png"@) {
        Some(SourceKind::Png)
    } else if has_extension(path, "jpg"@) || has_extension(path, "jpeg"@) {
        Some(SourceKind::Jpeg)
    } else if has_extension(path, "tiff"@) || has_extension(path, "tif"@) {
        Some(SourceKind::Tiff)
    } else if has_extension(path, "bmp"@) {
        Some(SourceKind::Bmp)
    } else {
        None
    }
}

/// The extractor a path goes to: HTML, then PDF, then office formats, then
/// images, and plain UTF-8 text for everything else.
pub open spec fn route_of(path: Seq<char>) -> ExtractRoute {
    if html_path(path) {
        ExtractRoute::Html
    } else if pdf_path(path) {
        ExtractRoute::Pdf
    } else {
        match office_kind(path) {
            Some(k) => ExtractRoute::Office(k),
            None => match image_kind(path) {
                Some(k) => ExtractRoute::Image(k),
                None => ExtractRoute::Utf8,
            },
        }
    }
}

/// How many characters of `s` are alphanumeric.
pub open spec fn alnum_count(s: Seq<char>) -> nat
    decreases s.len(),
{
    if s.len() == 0 {
        0
    } else {
        alnum_count(s.drop_last()) + if unicode_alphanumeric(s.last()) { 1nat } else { 0nat }
    }
}

/// Whether an optional extension is `ext`.
fn extension_is(e: &Option<Vec<char>>, ext: &str) -> (r: bool)
    ensures
        r == (opt_view(*e) == Some(ext@)),
{
    match e {
        Some(v) => {
            let x = chars_of(ext);
            chars_eq(v.as_slice(), x.as_slice())
        },
        None => false,
    }
}

/// The extension of a path.
fn extension_of(path: &str) -> (r: Option<Vec<char>>)
    ensures
        opt_view(r) == extension_spec(path@),
{
    let p = chars_of(path);
    extension_chars(p.as_slice())
}

/// Whether the path names an HTML document (`.html` or `.htm`).
pub fn is_html_path(path: &str) -> (r: bool)
    ensures
        r == html_path(path@),
{
    let e = extension_of(path);
    extension_is(&e, "html") || extension_is(&e, "htm")
}

/// Whether the path names a PDF document.
pub fn is_pdf_path(path: &str) -> (r: bool)
    ensures
        r == pdf_path(path@),
{
    let e = extension_of(path);
    extension_is(&e, "pdf")
}

/// The office format the path names: `.docx`, `.xlsx` or `.pptx`.
pub fn office_source_kind(path: &str) -> (r: Option<SourceKind>)
    ensures
        r == office_kind(path@),
{
    let e = extension_of(path);
    if extension_is(&e, "docx") {
        Some(SourceKind::Docx)
    } else if extension_is(&e, "xlsx") {
        Some(SourceKind::Xlsx)
    } else if extension_is(&e, "pptx") {
        Some(SourceKind::Pptx)
    } else {
        None
    }
}

/// The image format the path names: `.png`, `.jpg`/`.jpeg`, `.tiff`/`.tif`
/// or `.bmp`.
pub fn image_source_kind(path: &str) -> (r: Option<SourceKind>)
    ensures
        r == image_kind(path@),
{
    let e = extension_of(path);
    if extension_is(&e, "png") {
        Some(SourceKind::Png)
    } else if extension_is(&e, "jpg") || extension_is(&e, "jpeg") {
        Some(SourceKind::Jpeg)
    } else if extension_is(&e, "tiff") || extension_is(&e, "tif") {
        Some(SourceKind::Tiff)
    } else if extension_is(&e, "bmp") {
        Some(SourceKind::Bmp)
    } else {
        None
    }
}

/// The extractor a path goes to.
pub fn extraction_route(path: &str) -> (r: ExtractRoute)
    ensures
        r == route_of(path@),
{
    if is_html_path(path) {
        ExtractRoute::Html
    } else if is_pdf_path(path) {
        ExtractRoute::Pdf
    } else {
        match office_source_kind(path) {
            Some(k) => ExtractRoute::Office(k),
            None => match image_source_kind(path) {
                Some(k) => ExtractRoute::Image(k),
                None => ExtractRoute::Utf8,
            },
        }
    }
}

/// Calls `String::from_utf8`. Claimed, as std documents it: the bytes are
/// accepted exactly when they are valid UTF-8, and then the string holds the
/// characters they encode.
#[verifier::external_body]
pub(crate) fn utf8_string(bytes: &[u8]) -> (r: Option<String>)
    ensures
        match r {
            Some(s) => valid_utf8(bytes@) && s@ == decode_utf8(bytes@),
            None => !valid_utf8(bytes@),
        },
{
    String::from_utf8(bytes.to_vec()).ok()
}

/// Calls `html2text::from_read` on the bytes. Claimed: the result is the
/// named rendering of the bytes at that width (the renderer's output is not
/// stated further).
#[verifier::external_body]
fn html_to_text(bytes: &[u8], width: usize) -> (r: Option<String>)
    ensures
        opt_string_view(r) == html_render(bytes@, width),
{
    html2text::from_read(bytes, width).ok()
}

/// Plain text: the bytes when they are valid UTF-8, else nothing.
pub fn extract_utf8(bytes: &[u8]) -> (r: Option<ExtractedDocument>)
    ensures
        match r {
            Some(d) => valid_utf8(bytes@) && d.text@ == decode_utf8(bytes@)
                && d.source_kind == SourceKind::Text,
            None => !valid_utf8(bytes@),
        },
{
    match utf8_string(bytes) {
        Some(text) => Some(ExtractedDocument { text, source_kind: SourceKind::Text }),
        None => None,
    }
}

/// HTML rendered as text at the standard width.
pub fn extract_html(bytes: &[u8]) -> (r: Result<Option<ExtractedDocument>, ExtractError>)
    ensures
        match html_render(bytes@, HTML_RENDER_WIDTH) {
            Some(t) => match r {
                Ok(Some(d)) => d.text@ == t && d.source_kind == SourceKind::Html,
                _ => false,
            },
            None => r == Err::<Option<ExtractedDocument>, ExtractError>(ExtractError::RenderHtml),
        },
{
    match html_to_text(bytes, HTML_RENDER_WIDTH) {
        Some(text) => Ok(Some(ExtractedDocument { text, source_kind: SourceKind::Html })),
        None => Err(ExtractError::RenderHtml),
    }
}

/// A PDF document from what the PDF reader gave for its bytes: the text
/// layer it read, or `None` where the reader refused the bytes (the reader
/// runs outside the library, since it can panic on malformed input).
pub fn extract_pdf_text(text: Option<String>) -> (r: Result<Option<ExtractedDocument>, ExtractError>)
    ensures
        match text {
            Some(t) => match r {
                Ok(Some(d)) => d.text == t && d.source_kind == SourceKind::Pdf,
                _ => false,
            },
            None => r == Err::<Option<ExtractedDocument>, ExtractError>(ExtractError::ExtractPdf),
        },
{
    match text {
        Some(text) => Ok(Some(ExtractedDocument { text, source_kind: SourceKind::Pdf })),
        None => Err(ExtractError::ExtractPdf),
    }
}

/// Whether a PDF's text looks like the text layer of a scan: fewer than
/// fifty alphanumeric characters.
pub fn is_scanned_pdf_heuristic(text: &str) -> (r: bool)
    ensures
        r == (alnum_count(text@) < SCANNED_PDF_ALNUM_THRESHOLD),
{
    let chars = chars_of(text);
    let mut count: usize = 0;
    let mut i: usize = 0;
    while i < chars.len()
        invariant
            i <= chars.len(),
            chars@ == text@,
            count == alnum_count(chars@.take(i as int)),
            count <= i,
        decreases chars.len() - i,
    {
        proof {
            assert(chars@.take(i + 1).drop_last() =~= chars@.take(i as int));
        }
        if char_is_alphanumeric(chars[i]) {
            count += 1;
        }
        i += 1;
    }
    assert(chars@.take(chars@.len() as int) =~= chars@);
    count < SCANNED_PDF_ALNUM_THRESHOLD
}

/// A path whose extension is `docx`, `xlsx` or `pptx` names that office
/// format and goes to the office extractor as a document of that kind.
pub proof fn lemma_office_extensions_route_to_office(path: Seq<char>)
    ensures
        extension_spec(path) == Some("docx"@) ==> office_kind(path) == Some(SourceKind::Docx)
            && route_of(path) == ExtractRoute::Office(SourceKind::Docx),
        extension_spec(path) == Some("xlsx"@) ==> office_kind(path) == Some(SourceKind::Xlsx)
            && route_of(path) == ExtractRoute::Office(SourceKind::Xlsx),
        extension_spec(path) == Some("pptx"@) ==> office_kind(path) == Some(SourceKind::Pptx)
            && route_of(path) == ExtractRoute::Office(SourceKind::Pptx),
{
    reveal_strlit("docx");
    reveal_strlit("xlsx");
    reveal_strlit("pptx");
    reveal_strlit("html");
    reveal_strlit("htm");
    reveal_strlit("pdf");
    let e = extension_spec(path);
    if e == Some("docx"@) || e == Some("xlsx"@) || e == Some("pptx"@) {
        let x = e->0;
        assert(x != "html"@ && x != "htm"@ && x != "pdf"@) by {
            if x == "docx"@ || x == "xlsx"@ || x == "pptx"@ {
                assert(x.len() == 4);
                assert(x[3] == 'x');
                assert("html"@[3] == 'l');
                assert("htm"@.len() == 3);
                assert("pdf"@.len() == 3);
            }
        }
        assert(x == "docx"@ ==> x != "xlsx"@ && x != "pptx"@) by {
            if x == "docx"@ {
                assert("xlsx"@[0] == 'x');
                assert("pptx"@[0] == 'p');
            }
        }
        assert(x == "xlsx"@ ==> x != "docx"@ && x != "pptx"@) by {
            if x == "xlsx"@ {
                assert("docx"@[0] == 'd');
                assert("pptx"@[0] == 'p');
            }
        }
        assert(x == "pptx"@ ==> x != "docx"@ && x != "xlsx"@) by {
            if x == "pptx"@ {
                assert("docx"@[0] == 'd');
                assert("xlsx"@[0] == 'x');
            }
        }
    }
}

} // verus!
