//! Loading a document: what is checked, in which order, and what each
//! failure is reported as.
//!
//! The bytes of the input are first sniffed for their format, and only a
//! PDF file is handed to the parser. The parser is called by the program,
//! not from here: on some malformed files it does not return. What it hands
//! back is taken up here again, and the requested pages are checked against
//! the parsed document's page count before anything is rendered.

use file_format::FileFormat;
use hayro::Pdf;
use hayro_interpret::hayro_syntax::LoadPdfError;
use vstd::prelude::*;
use crate::error::{AppError, ErrorKind};
use crate::pages::{validate_requested_pages, validation, Selection, SelectionView};
use crate::plan::{
    file_name_of, lemma_planned_pages, plan_outputs, planned_pages, Format, RenderJob,
};

verus! {

/// `hayro::Pdf`, a parsed document.
#[verifier::external_type_specification]
#[verifier::external_body]
pub struct ExPdf(Pdf);

/// `hayro_syntax::LoadPdfError`, the reason why bytes were not parsed.
#[verifier::external_type_specification]
#[verifier::external_body]
pub struct ExLoadPdfError(LoadPdfError);

/// Whether `file_format` detects the bytes as a Portable Document Format
/// file.
pub uninterp spec fn sniffs_as_pdf(bytes: Seq<u8>) -> bool;

/// The number of pages of a parsed document.
pub uninterp spec fn page_count(pdf: &Pdf) -> usize;

/// The text that `Debug` writes for a load error.
pub uninterp spec fn load_error_debug(error: &LoadPdfError) -> Seq<char>;

/// The texts that `Debug` can write for a load error: the name of its
/// variant and, for a failed decryption, the name of the reason in
/// brackets.
pub open spec fn is_load_error_text(text: Seq<char>) -> bool {
    ||| text == "Invalid"@
    ||| text == "Decryption(MissingIDEntry)"@
    ||| text == "Decryption(PasswordProtected)"@
    ||| text == "Decryption(InvalidEncryption)"@
    ||| text == "Decryption(UnsupportedAlgorithm)"@
}

/// What the parser handed back, as far as loading goes by it: the number
/// of pages of the document, or else the `Debug` text of the error.
pub open spec fn parsed_model(parsed: Result<Pdf, LoadPdfError>) -> Result<usize, Seq<char>> {
    match parsed {
        Ok(pdf) => Ok(page_count(&pdf)),
        Err(reason) => Err(load_error_debug(&reason)),
    }
}

/// The outcome of taking up what the parser handed back, given as the
/// number of pages of the document or else the `Debug` text of the error:
/// the page count with the selection, or the kind and the message of the
/// error. A parser's error comes before any fault in the requested pages.
pub open spec fn load_outcome(parsed: Result<usize, Seq<char>>, pages: Seq<usize>) -> Result<
    (usize, SelectionView),
    (ErrorKind, Seq<char>),
> {
    match parsed {
        Err(reason) => Err((ErrorKind::Pdf, "Failed to read PDF: "@ + reason)),
        Ok(total) => match validation(pages, total) {
            Ok(chosen) => Ok((total, chosen)),
            Err(message) => Err((ErrorKind::PageValidation, message)),
        },
    }
}

/// `FileFormat::from_bytes`, asked whether its answer is the variant
/// `PortableDocumentFormat`. The detection goes by the signatures at the
/// start of the bytes alone; its answer is given the name `sniffs_as_pdf`.
#[verifier::external_body]
fn has_pdf_format(bytes: &[u8]) -> (is_pdf: bool)
    ensures
        is_pdf == sniffs_as_pdf(bytes@),
{
    match FileFormat::from_bytes(bytes) {
        FileFormat::PortableDocumentFormat => true,
        _ => false,
    }
}

/// The `Debug` text of a `LoadPdfError`. `Debug` is derived for the error
/// and for the reason that a failed decryption carries, so the text is the
/// name of the variant, with the reason's name in brackets where there is
/// one: one of the five texts of `is_load_error_text`.
#[verifier::external_body]
fn load_error_text(error: &LoadPdfError) -> (text: String)
    ensures
        text@ == load_error_debug(error),
        is_load_error_text(text@),
{
    format!("{error:?}")
}

/// The length of `Pdf::pages`: the number of pages that were found when the
/// document was parsed.
#[verifier::external_body]
fn count_pages(pdf: &Pdf) -> (count: usize)
    ensures
        count == page_count(pdf),
{
    pdf.pages().len()
}

/// Accepts the bytes of a PDF file and rejects all others. Only bytes that
/// pass may be handed to the parser.
pub fn check_file_type(bytes: &[u8]) -> (checked: Result<(), AppError>)
    ensures
        checked is Ok <==> sniffs_as_pdf(bytes@),
        checked matches Err(error) ==> error.kind == ErrorKind::FileType && error.message@
            == "Input file is not a PDF"@,
{
    if has_pdf_format(bytes) {
        Ok(())
    } else {
        Err(AppError::not_a_pdf())
    }
}

/// The error for a document that the parser rejected.
pub fn parse_failure(error: &LoadPdfError) -> (failure: AppError)
    ensures
        failure.kind == ErrorKind::Pdf,
        failure.message@ == "Failed to read PDF: "@ + load_error_debug(error),
        is_load_error_text(load_error_debug(error)),
{
    let detail = load_error_text(error);
    AppError::unreadable_pdf(detail.as_str())
}

/// Plans the files of a run on the document: one job for each chosen page
/// that the document has, in document order.
pub fn plan_document(pdf: &Pdf, selection: &Selection, prefix: &str, format: Format) -> (jobs: Vec<
    RenderJob,
>)
    ensures
        jobs@.len() == planned_pages(selection@, page_count(pdf)).len(),
        forall|k: int|
            0 <= k < jobs@.len() ==> {
                let planned = planned_pages(selection@, page_count(pdf));
                &&& (#[trigger] jobs@[k]).page_index == planned[k]
                &&& jobs@[k].page_index < page_count(pdf)
                &&& jobs@[k].file_name@ == file_name_of(prefix@, jobs@[k].page_index, format)
            },
{
    let total = count_pages(pdf);
    let jobs = plan_outputs(selection, total, prefix, format);
    proof {
        lemma_planned_pages(selection@, total);
        let planned = planned_pages(selection@, total);
        assert forall|k: int| 0 <= k < jobs@.len() implies (#[trigger] jobs@[k]).page_index
            < total by {
            assert(planned.contains(planned[k]));
        }
    }
    jobs
}

/// Checks the requested pages against the document and hands both back:
/// the document as it was, with the selection that the request stands for.
pub fn select_pages(pdf: Pdf, pages: &[usize]) -> (selected: Result<(Pdf, Selection), AppError>)
    ensures
        match validation(pages@, page_count(&pdf)) {
            Ok(chosen) => selected matches Ok((same, selection)) && same == pdf && selection@
                == chosen && chosen.within(page_count(&pdf)),
            Err(message) => selected matches Err(error) && error.kind == ErrorKind::PageValidation
                && error.message@ == message,
        },
{
    let total = count_pages(&pdf);
    match validate_requested_pages(pages, total) {
        Ok(selection) => Ok((pdf, selection)),
        Err(message) => Err(AppError::invalid_pages(message)),
    }
}

/// Takes up what the parser made of the input's bytes, and checks the
/// requested pages against the document. The parser must have accepted the
/// bytes, and every requested page must be one of the document's.
pub fn load_pdf_and_pages(parsed: Result<Pdf, LoadPdfError>, pages: &[usize]) -> (loaded: Result<
    (Pdf, Selection),
    AppError,
>)
    ensures
        loaded is Ok <==> (parsed matches Ok(pdf) && validation(pages@, page_count(&pdf)) is Ok),
        match parsed {
            Ok(pdf) => match validation(pages@, page_count(&pdf)) {
                Ok(chosen) => {
                    &&& loaded matches Ok((same, selection))
                    &&& same == pdf
                    &&& selection@ == chosen
                    &&& chosen.within(page_count(&pdf))
                },
                Err(message) => {
                    &&& loaded matches Err(error)
                    &&& error.kind == ErrorKind::PageValidation
                    &&& error.message@ == message
                },
            },
            Err(reason) => {
                &&& loaded matches Err(error)
                &&& error.kind == ErrorKind::Pdf
                &&& error.message@ == "Failed to read PDF: "@ + load_error_debug(&reason)
                &&& is_load_error_text(load_error_debug(&reason))
            },
        },
        match loaded {
            Ok((pdf, selection)) => load_outcome(parsed_model(parsed), pages@) == Ok::<
                (usize, SelectionView),
                (ErrorKind, Seq<char>),
            >((page_count(&pdf), selection@)),
            Err(error) => load_outcome(parsed_model(parsed), pages@) == Err::<
                (usize, SelectionView),
                (ErrorKind, Seq<char>),
            >((error.kind, error.message@)),
        },
{
    match parsed {
        Err(reason) => Err(parse_failure(&reason)),
        Ok(pdf) => select_pages(pdf, pages),
    }
}

} // verus!
