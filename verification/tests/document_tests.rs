use hayro::Pdf;
use hayro_interpret::hayro_syntax::LoadPdfError;
use hayro_interpret::InterpreterSettings;
use pdf_converter::document::{
    check_file_type, load_pdf_and_pages, parse_failure, plan_document, select_pages,
};
use pdf_converter::error::AppError;
use pdf_converter::error::ErrorKind;
use pdf_converter::markup::attribute_value;
use pdf_converter::pages::Selection;
use pdf_converter::plan::Format;
use std::collections::HashSet;
use std::sync::Arc;

fn document(pages: usize) -> Vec<u8> {
    document_with_trailer(pages, "")
}

fn document_with_trailer(pages: usize, entries: &str) -> Vec<u8> {
    let mut out: Vec<u8> = Vec::new();
    let mut offsets: Vec<usize> = Vec::new();
    out.extend_from_slice(b"%PDF-1.4\n");
    offsets.push(out.len());
    out.extend_from_slice(b"1 0 obj\n<< /Type /Catalog /Pages 2 0 R >>\nendobj\n");
    let kids: Vec<String> = (0..pages).map(|i| format!("{} 0 R", 3 + i)).collect();
    offsets.push(out.len());
    out.extend_from_slice(
        format!(
            "2 0 obj\n<< /Type /Pages /Kids [{}] /Count {} >>\nendobj\n",
            kids.join(" "),
            pages
        )
        .as_bytes(),
    );
    for i in 0..pages {
        offsets.push(out.len());
        out.extend_from_slice(
            format!(
                "{} 0 obj\n<< /Type /Page /Parent 2 0 R /MediaBox [0 0 {} 50] >>\nendobj\n",
                3 + i,
                100 + i
            )
            .as_bytes(),
        );
    }
    let xref = out.len();
    out.extend_from_slice(format!("xref\n0 {}\n", offsets.len() + 1).as_bytes());
    out.extend_from_slice(b"0000000000 65535 f \n");
    for offset in &offsets {
        out.extend_from_slice(format!("{:010} 00000 n \n", offset).as_bytes());
    }
    out.extend_from_slice(
        format!(
            "trailer\n<< /Size {} /Root 1 0 R {} >>\nstartxref\n{}\n%%EOF\n",
            offsets.len() + 1,
            entries,
            xref
        )
        .as_bytes(),
    );
    out
}

fn load(bytes: Vec<u8>, pages: &[usize]) -> Result<(Pdf, Selection), AppError> {
    check_file_type(&bytes)?;
    load_pdf_and_pages(Pdf::new(Arc::new(bytes)), pages)
}

fn render_svg(pdf: &Pdf, index: usize, settings: &InterpreterSettings) -> Option<String> {
    let page = pdf.pages().get(index)?;
    Some(hayro_svg::convert(page, settings))
}

fn pages_in(pdf: &Pdf) -> usize {
    plan_document(pdf, &Selection::All, "p-", Format::Svg).len()
}

fn parsed(pages: usize) -> Pdf {
    match Pdf::new(Arc::new(document(pages))) {
        Ok(pdf) => pdf,
        Err(error) => panic!("the document did not parse: {error:?}"),
    }
}

#[test]
fn pdf_bytes_pass_the_file_type_check() {
    assert!(check_file_type(&document(1)).is_ok());
    assert!(check_file_type(b"%PDF-1.7 and nothing more").is_ok());
}

#[test]
fn other_bytes_fail_the_file_type_check() {
    let png = check_file_type(b"\x89\x50\x4E\x47\x0D\x0A\x1A\x0A").unwrap_err();
    assert_eq!(png.kind, ErrorKind::FileType);
    assert_eq!(png.message, "Input file is not a PDF");
    assert_eq!(png.tag(), "FileType");
    assert!(check_file_type(b"").is_err());
    assert!(check_file_type(b"plain text").is_err());
    assert!(check_file_type(b" %PDF-1.4").is_err());
}

#[test]
fn parse_failure_shows_the_reason() {
    let failure = parse_failure(&LoadPdfError::Invalid);
    assert_eq!(failure.kind, ErrorKind::Pdf);
    assert_eq!(failure.message, "Failed to read PDF: Invalid");
}

#[test]
fn page_count_is_that_of_the_document() {
    assert_eq!(pages_in(&parsed(1)), 1);
    assert_eq!(pages_in(&parsed(3)), 3);
}

#[test]
fn select_pages_checks_against_the_document() {
    let (pdf, selection) = match select_pages(parsed(3), &[3, 1]) {
        Ok(pair) => pair,
        Err(error) => panic!("unexpected error: {}", error.message),
    };
    assert_eq!(pages_in(&pdf), 3);
    assert_eq!(selection, Selection::Pages(HashSet::from([0, 2])));
    let error = match select_pages(parsed(3), &[4, 0]) {
        Ok(_) => panic!("the request should have failed"),
        Err(error) => error,
    };
    assert_eq!(error.kind, ErrorKind::PageValidation);
    assert_eq!(
        error.message,
        "Invalid requested page(s): 0, 4. The page numbers must be between 1 and 3."
    );
}

#[test]
fn parser_errors_become_pdf_errors() {
    let error = match load_pdf_and_pages(Err(LoadPdfError::Invalid), &[0, 9]) {
        Ok(_) => panic!("the load should have failed"),
        Err(error) => error,
    };
    assert_eq!(error.kind, ErrorKind::Pdf);
    assert_eq!(error.message, "Failed to read PDF: Invalid");
}

#[test]
fn parsed_documents_have_their_pages_checked() {
    let error = match load_pdf_and_pages(Ok(parsed(2)), &[3]) {
        Ok(_) => panic!("the load should have failed"),
        Err(error) => error,
    };
    assert_eq!(error.kind, ErrorKind::PageValidation);
    assert_eq!(
        error.message,
        "Invalid requested page(s): 3. The page numbers must be between 1 and 2."
    );
    let (pdf, selection) = match load_pdf_and_pages(Ok(parsed(2)), &[2, 1]) {
        Ok(pair) => pair,
        Err(error) => panic!("unexpected error: {}", error.message),
    };
    assert_eq!(pages_in(&pdf), 2);
    assert_eq!(selection, Selection::Pages(HashSet::from([0, 1])));
}

#[test]
fn loading_rejects_what_is_no_pdf() {
    let error = match load(b"GIF89a".to_vec(), &[1]) {
        Ok(_) => panic!("the load should have failed"),
        Err(error) => error,
    };
    assert_eq!(error.kind, ErrorKind::FileType);
    assert_eq!(error.message, "Input file is not a PDF");
}

#[test]
fn loading_rejects_a_broken_pdf() {
    let error = match load(b"%PDF-1.4\nnothing of use".to_vec(), &[]) {
        Ok(_) => panic!("the load should have failed"),
        Err(error) => error,
    };
    assert_eq!(error.kind, ErrorKind::Pdf);
    assert_eq!(error.message, "Failed to read PDF: Invalid");
}

fn load_error(bytes: Vec<u8>, pages: &[usize]) -> (ErrorKind, String) {
    match load(bytes, pages) {
        Ok(_) => panic!("the load should have failed"),
        Err(error) => (error.kind, error.message),
    }
}

#[test]
fn loading_reports_why_decryption_failed() {
    let no_id = document_with_trailer(1, "/Encrypt << /Filter /Standard >>");
    assert_eq!(
        load_error(no_id, &[]),
        (ErrorKind::Pdf, "Failed to read PDF: Decryption(MissingIDEntry)".to_string())
    );
    let other = document_with_trailer(1, "/ID [<00> <00>] /Encrypt << /Filter /Other >>");
    assert_eq!(
        load_error(other, &[]),
        (ErrorKind::Pdf, "Failed to read PDF: Decryption(UnsupportedAlgorithm)".to_string())
    );
    let bare = document_with_trailer(1, "/ID [<00> <00>] /Encrypt << /V 1 >>");
    assert_eq!(
        load_error(bare, &[]),
        (ErrorKind::Pdf, "Failed to read PDF: Decryption(InvalidEncryption)".to_string())
    );
}

#[test]
fn a_broken_pdf_is_reported_before_the_pages_are_checked() {
    let (kind, message) = load_error(b"%PDF-1.4\nnothing of use".to_vec(), &[0, 99]);
    assert_eq!(kind, ErrorKind::Pdf);
    assert_eq!(message, "Failed to read PDF: Invalid");
}

#[test]
fn the_file_type_is_checked_before_the_pages() {
    let (kind, message) = load_error(b"not a document".to_vec(), &[0, 99]);
    assert_eq!(kind, ErrorKind::FileType);
    assert_eq!(message, "Input file is not a PDF");
}

#[test]
fn loading_the_same_bytes_gives_the_same_outcome() {
    for _ in 0..3 {
        let (pdf, selection) = match load(document(4), &[4, 2]) {
            Ok(pair) => pair,
            Err(error) => panic!("unexpected error: {}", error.message),
        };
        assert_eq!(pages_in(&pdf), 4);
        assert_eq!(selection, Selection::Pages(HashSet::from([1, 3])));
    }
}

#[test]
fn loading_checks_the_requested_pages() {
    let error = match load(document(3), &[0, 6, 6]) {
        Ok(_) => panic!("the load should have failed"),
        Err(error) => error,
    };
    assert_eq!(error.kind, ErrorKind::PageValidation);
    assert_eq!(
        error.message,
        "Invalid requested page(s): 0, 6. The page numbers must be between 1 and 3."
    );
}

#[test]
fn loading_gives_the_document_and_the_selection() {
    let (pdf, selection) = match load(document(3), &[2]) {
        Ok(pair) => pair,
        Err(error) => panic!("unexpected error: {}", error.message),
    };
    assert_eq!(pages_in(&pdf), 3);
    assert_eq!(selection, Selection::Pages(HashSet::from([1])));
    let jobs = plan_document(&pdf, &selection, "doc-", Format::Png);
    assert_eq!(jobs.len(), 1);
    assert_eq!(jobs[0].page_index, 1);
    assert_eq!(jobs[0].file_name, "doc-2.png");
}

#[test]
fn loading_without_a_request_selects_all() {
    let (pdf, selection) = match load(document(3), &[]) {
        Ok(pair) => pair,
        Err(error) => panic!("unexpected error: {}", error.message),
    };
    assert_eq!(selection, Selection::All);
    let jobs = plan_document(&pdf, &selection, "doc-", Format::Png);
    let names: Vec<String> = jobs.into_iter().map(|job| job.file_name).collect();
    assert_eq!(names, vec!["doc-1.png", "doc-2.png", "doc-3.png"]);
}

#[test]
fn plan_leaves_out_pages_that_the_document_lacks() {
    let pdf = parsed(2);
    let selection = Selection::Pages(HashSet::from([1, 2, 5]));
    let jobs = plan_document(&pdf, &selection, "doc-", Format::Svg);
    assert_eq!(jobs.len(), 1);
    assert_eq!(jobs[0].file_name, "doc-2.svg");
}

#[test]
fn dimensions_are_read_from_rendered_markup() {
    let pdf = parsed(2);
    let settings = InterpreterSettings::default();
    let first = render_svg(&pdf, 0, &settings).unwrap();
    assert!(first.contains("<svg"));
    assert_eq!(attribute_value(&first, "width"), Some("100".to_string()));
    assert_eq!(attribute_value(&first, "height"), Some("50".to_string()));
    let second = render_svg(&pdf, 1, &settings).unwrap();
    assert_eq!(attribute_value(&second, "width"), Some("101".to_string()));
}
