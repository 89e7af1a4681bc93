use pdf_converter::driver::Conversion;
use pdf_converter::error::ErrorKind;
use pdf_converter::pages::{validate_requested_pages, Selection};
use pdf_converter::plan::{plan_outputs, Format};

#[test]
fn run_hands_out_the_jobs_in_order() {
    let selection = validate_requested_pages(&[3, 1], 3).unwrap();
    let mut run = Conversion::new(plan_outputs(&selection, 3, "doc-", Format::Png), Format::Png);
    assert_eq!(run.files_written(), 0);
    assert_eq!(run.next_job().unwrap().file_name, "doc-1.png");
    assert_eq!(run.next_job().unwrap().file_name, "doc-1.png");
    run.file_written();
    assert_eq!(run.files_written(), 1);
    assert_eq!(run.next_job().unwrap().file_name, "doc-3.png");
    assert_eq!(run.next_job().unwrap().page_index, 2);
    run.file_written();
    assert_eq!(run.files_written(), 2);
    assert!(run.next_job().is_none());
}

#[test]
fn finished_run_stays_finished() {
    let mut run = Conversion::new(plan_outputs(&Selection::All, 1, "p-", Format::Svg), Format::Svg);
    run.file_written();
    run.file_written();
    run.file_written();
    assert_eq!(run.files_written(), 1);
    assert!(run.next_job().is_none());
}

#[test]
fn empty_run_is_finished_at_once() {
    let run = Conversion::new(Vec::new(), Format::Png);
    assert!(run.next_job().is_none());
    assert_eq!(run.files_written(), 0);
    assert_eq!(run.summary("out", "in.pdf"), "Wrote 0 PNG files to out (input: in.pdf)");
}

#[test]
fn failed_write_gives_a_file_system_error() {
    let mut run = Conversion::new(plan_outputs(&Selection::All, 2, "p-", Format::Svg), Format::Svg);
    let error = run.write_failed("disk full");
    assert_eq!(error.kind, ErrorKind::FileSystem);
    assert_eq!(error.message, "Failed to write SVG: disk full");
    let png = Conversion::new(Vec::new(), Format::Png).write_failed("denied");
    assert_eq!(png.message, "Failed to write PNG: denied");
}

#[test]
fn first_failed_write_ends_the_run() {
    let mut run = Conversion::new(plan_outputs(&Selection::All, 3, "p-", Format::Png), Format::Png);
    assert!(!run.is_over());
    run.file_written();
    assert_eq!(run.next_job().unwrap().file_name, "p-2.png");
    run.write_failed("disk full");
    assert!(run.is_over());
    assert!(run.next_job().is_none());
    assert_eq!(run.files_written(), 1);
    run.file_written();
    assert_eq!(run.files_written(), 1);
    assert!(run.next_job().is_none());
}

#[test]
fn run_is_over_when_all_files_are_written() {
    let mut run = Conversion::new(plan_outputs(&Selection::All, 2, "p-", Format::Svg), Format::Svg);
    assert!(!run.is_over());
    run.file_written();
    assert!(!run.is_over());
    run.file_written();
    assert!(run.is_over());
    assert!(Conversion::new(Vec::new(), Format::Svg).is_over());
}

#[test]
fn summary_counts_what_was_written() {
    let mut run = Conversion::new(plan_outputs(&Selection::All, 3, "p-", Format::Png), Format::Png);
    run.file_written();
    assert_eq!(run.summary("out", "a.pdf"), "Wrote 1 PNG file to out (input: a.pdf)");
    run.file_written();
    run.file_written();
    assert_eq!(run.summary("out", "a.pdf"), "Wrote 3 PNG files to out (input: a.pdf)");
}
