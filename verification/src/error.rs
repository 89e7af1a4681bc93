//! The errors that end a run. Each has a kind, by which callers can tell
//! them apart, and a message for the user.

use vstd::prelude::*;
use vstd::string::StringExecFns;
use crate::plan::Format;
use crate::text::{decimal, push_decimal};

verus! {

/// The kinds of error.
#[derive(Debug, Clone, Copy, PartialEq, Eq, Structural)]
pub enum ErrorKind {
    /// A directory could not be created, or a file not read or written.
    FileSystem,
    /// The input is not a PDF file.
    FileType,
    /// The document could not be parsed.
    Pdf,
    /// A requested page number names no page of the document.
    PageValidation,
}

impl ErrorKind {
    /// The tag under which errors of this kind are logged.
    pub open spec fn tag_text(self) -> Seq<char> {
        match self {
            ErrorKind::FileSystem => "FileSystem"@,
            ErrorKind::FileType => "FileType"@,
            ErrorKind::Pdf => "PDF"@,
            ErrorKind::PageValidation => "PageValidation"@,
        }
    }

    /// The tag under which errors of this kind are logged.
    pub fn tag(self) -> (text: &'static str)
        ensures
            text@ == self.tag_text(),
    {
        match self {
            ErrorKind::FileSystem => "FileSystem",
            ErrorKind::FileType => "FileType",
            ErrorKind::Pdf => "PDF",
            ErrorKind::PageValidation => "PageValidation",
        }
    }
}

/// What was being done to the file system when it failed.
#[derive(Debug, Clone, Copy, PartialEq, Eq, Structural)]
pub enum FileOperation {
    CreateOutputDirectory,
    ReadInput,
    WriteOutput(Format),
}

impl FileOperation {
    /// How the failure of this operation is worded.
    pub open spec fn failure_text(self) -> Seq<char> {
        match self {
            FileOperation::CreateOutputDirectory => "Failed to create output directory"@,
            FileOperation::ReadInput => "Failed to read input file"@,
            FileOperation::WriteOutput(format) => "Failed to write "@ + format.label_text(),
        }
    }
}

/// An error that ends the run.
#[derive(Debug, PartialEq, Eq)]
pub struct AppError {
    pub kind: ErrorKind,
    pub message: String,
}

impl AppError {
    /// An error of the given kind with the given message.
    pub fn new(kind: ErrorKind, message: String) -> (error: AppError)
        ensures
            error.kind == kind,
            error.message == message,
    {
        AppError { kind, message }
    }

    /// The tag under which the error is logged.
    pub fn tag(&self) -> (text: &'static str)
        ensures
            text@ == self.kind.tag_text(),
    {
        self.kind.tag()
    }

    /// The text shown to the user: the message.
    pub fn to_text(&self) -> (text: String)
        ensures
            text@ == self.message@,
    {
        self.message.clone()
    }

    /// A failed file system operation, with the operating system's account
    /// of it.
    pub fn file_system(operation: FileOperation, detail: &str) -> (error: AppError)
        ensures
            error.kind == ErrorKind::FileSystem,
            error.message@ == operation.failure_text() + ": "@ + detail@,
    {
        let mut message = String::new();
        match operation {
            FileOperation::CreateOutputDirectory => {
                message.append("Failed to create output directory");
            },
            FileOperation::ReadInput => {
                message.append("Failed to read input file");
            },
            FileOperation::WriteOutput(format) => {
                message.append("Failed to write ");
                message.append(format.label());
            },
        }
        message.append(": ");
        message.append(detail);
        AppError { kind: ErrorKind::FileSystem, message }
    }

    /// The input's bytes are not those of a PDF file.
    pub fn not_a_pdf() -> (error: AppError)
        ensures
            error.kind == ErrorKind::FileType,
            error.message@ == "Input file is not a PDF"@,
    {
        let mut message = String::new();
        message.append("Input file is not a PDF");
        AppError { kind: ErrorKind::FileType, message }
    }

    /// The document could not be parsed; `detail` says why.
    pub fn unreadable_pdf(detail: &str) -> (error: AppError)
        ensures
            error.kind == ErrorKind::Pdf,
            error.message@ == "Failed to read PDF: "@ + detail@,
    {
        let mut message = String::new();
        message.append("Failed to read PDF: ");
        message.append(detail);
        AppError { kind: ErrorKind::Pdf, message }
    }

    /// How the absence of the page with the 0-based index `index` is
    /// worded; the page is named by its 1-based number.
    pub open spec fn missing_page_text(index: usize) -> Seq<char> {
        "The document has no page "@ + decimal((index + 1) as nat)
    }

    /// A page was to be rendered that the document does not have.
    pub fn missing_page(index: usize) -> (error: AppError)
        ensures
            error.kind == ErrorKind::PageValidation,
            error.message@ == AppError::missing_page_text(index),
    {
        let mut message = String::new();
        message.append("The document has no page ");
        push_decimal(&mut message, index as u128 + 1);
        AppError { kind: ErrorKind::PageValidation, message }
    }

    /// Requested pages that the document does not have; `message` lists
    /// them.
    pub fn invalid_pages(message: String) -> (error: AppError)
        ensures
            error.kind == ErrorKind::PageValidation,
            error.message == message,
    {
        AppError { kind: ErrorKind::PageValidation, message }
    }
}

} // verus!
