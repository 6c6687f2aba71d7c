use sift::extract::{
    extract_html, extract_pdf_text, extract_utf8, extraction_route, image_source_kind, is_html_path, is_pdf_path,
    is_scanned_pdf_heuristic, office_source_kind, ExtractError, ExtractRoute, SourceKind,
};

#[test]
fn test_image_source_kind() {
    assert_eq!(image_source_kind("test.png"), Some(SourceKind::Png));
    assert_eq!(image_source_kind("test.jpg"), Some(SourceKind::Jpeg));
    assert_eq!(image_source_kind("test.jpeg"), Some(SourceKind::Jpeg));
    assert_eq!(image_source_kind("test.tiff"), Some(SourceKind::Tiff));
    assert_eq!(image_source_kind("test.tif"), Some(SourceKind::Tiff));
    assert_eq!(image_source_kind("test.bmp"), Some(SourceKind::Bmp));
    assert_eq!(image_source_kind("test.txt"), None);
}

#[test]
fn test_is_scanned_pdf_heuristic() {
    assert!(is_scanned_pdf_heuristic(""));
    assert!(is_scanned_pdf_heuristic("   \n \t  "));
    assert!(is_scanned_pdf_heuristic("1234567890"));
    assert!(!is_scanned_pdf_heuristic(
        "This is a standard PDF with plenty of alphanumeric characters, clearly exceeding the threshold for the heuristic."
    ));
}

#[test]
fn images_route_to_the_image_extractor() {
    assert_eq!(extraction_route("test.png"), ExtractRoute::Image(SourceKind::Png));
}

#[test]
fn routes_follow_the_extension() {
    assert!(is_html_path("docs/a.html"));
    assert!(is_html_path("a.htm"));
    assert!(!is_html_path("a.html.txt"));
    assert!(is_pdf_path("a.pdf"));
    assert_eq!(office_source_kind("r.xlsx"), Some(SourceKind::Xlsx));
    assert_eq!(extraction_route("x.pptx"), ExtractRoute::Office(SourceKind::Pptx));
    assert_eq!(extraction_route("x.htm"), ExtractRoute::Html);
    assert_eq!(extraction_route("x.pdf"), ExtractRoute::Pdf);
    assert_eq!(extraction_route("notes.md"), ExtractRoute::Utf8);
    assert_eq!(extraction_route(".html"), ExtractRoute::Utf8);
}

#[test]
fn scan_threshold_is_fifty_alphanumerics() {
    let forty_nine = "a".repeat(49);
    let fifty = "a".repeat(50);
    assert!(is_scanned_pdf_heuristic(&forty_nine));
    assert!(!is_scanned_pdf_heuristic(&fifty));
    assert!(!is_scanned_pdf_heuristic(&"é".repeat(50)));
}

#[test]
fn utf8_text_is_kept_and_invalid_bytes_are_skipped() {
    let doc = extract_utf8("héllo".as_bytes()).expect("valid utf8");
    assert_eq!(doc.text, "héllo");
    assert_eq!(doc.source_kind, SourceKind::Text);
    assert!(extract_utf8(&[0xFF, 0xFE, 0xFD]).is_none());
}

#[test]
fn html_is_rendered_as_text() {
    let doc = extract_html(b"<html><body><h1>HTML Heading</h1><p>Service Catalog</p></body></html>")
        .expect("render")
        .expect("document");
    assert_eq!(doc.source_kind, SourceKind::Html);
    assert!(doc.text.contains("HTML Heading"));
    assert!(doc.text.contains("Service Catalog"));
    assert!(!doc.text.contains("<h1>"));
}

#[test]
fn pdf_text_becomes_a_pdf_document_or_the_reader_error() {
    let doc = extract_pdf_text(Some("Quarterly roadmap".to_string())).unwrap().unwrap();
    assert_eq!(doc.text, "Quarterly roadmap");
    assert_eq!(doc.source_kind, SourceKind::Pdf);
    assert!(matches!(extract_pdf_text(None), Err(ExtractError::ExtractPdf)));
}
