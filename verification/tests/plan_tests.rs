use pdf_converter::pages::{validate_requested_pages, Selection};
use pdf_converter::plan::{output_file_name, plan_outputs, Format, RenderJob};
use pdf_converter::report::{is_logged, render_summary, LogLevel};
use std::collections::HashSet;

fn names(jobs: &[RenderJob]) -> Vec<String> {
    jobs.iter().map(|job| job.file_name.clone()).collect()
}

#[test]
fn file_names_use_one_based_page_numbers() {
    assert_eq!(output_file_name("doc-", 0, Format::Png), "doc-1.png");
    assert_eq!(output_file_name("doc-", 1, Format::Svg), "doc-2.svg");
    assert_eq!(output_file_name("doc-", 9, Format::Png), "doc-10.png");
    assert_eq!(output_file_name("doc-", 98, Format::Svg), "doc-99.svg");
    assert_eq!(output_file_name("doc-", 99, Format::Svg), "doc-100.svg");
}

#[test]
fn file_name_of_the_largest_index_does_not_overflow() {
    let expected = format!("p-{}.png", usize::MAX as u128 + 1);
    assert_eq!(output_file_name("p-", usize::MAX, Format::Png), expected);
}

#[test]
fn formats_have_their_extension_and_label() {
    assert_eq!(Format::Png.extension(), "png");
    assert_eq!(Format::Svg.extension(), "svg");
    assert_eq!(Format::Png.label(), "PNG");
    assert_eq!(Format::Svg.label(), "SVG");
}

#[test]
fn one_selected_page_of_three_gives_one_file() {
    let selection = validate_requested_pages(&[2], 3).unwrap();
    let jobs = plan_outputs(&selection, 3, "doc-", Format::Png);
    assert_eq!(jobs.len(), 1);
    assert_eq!(jobs[0].page_index, 1);
    assert_eq!(jobs[0].file_name, "doc-2.png");
}

#[test]
fn no_selection_gives_a_file_for_every_page() {
    let selection = validate_requested_pages(&[], 3).unwrap();
    let jobs = plan_outputs(&selection, 3, "doc-", Format::Png);
    assert_eq!(names(&jobs), vec!["doc-1.png", "doc-2.png", "doc-3.png"]);
    let indices: Vec<usize> = jobs.iter().map(|job| job.page_index).collect();
    assert_eq!(indices, vec![0, 1, 2]);
}

#[test]
fn jobs_come_in_document_order() {
    let selection = validate_requested_pages(&[5, 1, 3, 3], 6).unwrap();
    let jobs = plan_outputs(&selection, 6, "x-", Format::Svg);
    assert_eq!(names(&jobs), vec!["x-1.svg", "x-3.svg", "x-5.svg"]);
}

#[test]
fn empty_document_gives_no_jobs() {
    let jobs = plan_outputs(&Selection::All, 0, "doc-", Format::Png);
    assert!(jobs.is_empty());
}

#[test]
fn indices_beyond_the_document_are_not_planned() {
    let selection = Selection::Pages(HashSet::from([0, 2, 7]));
    let jobs = plan_outputs(&selection, 3, "doc-", Format::Svg);
    assert_eq!(names(&jobs), vec!["doc-1.svg", "doc-3.svg"]);
}

#[test]
fn plan_has_as_many_jobs_as_pages_were_named() {
    let selection = validate_requested_pages(&[7, 7, 2, 9, 2], 10).unwrap();
    let jobs = plan_outputs(&selection, 10, "n-", Format::Png);
    assert_eq!(jobs.len(), 3);
}

#[test]
fn summary_counts_the_files() {
    assert_eq!(
        render_summary(Format::Png, 3, "out", "in.pdf"),
        "Wrote 3 PNG files to out (input: in.pdf)"
    );
    assert_eq!(
        render_summary(Format::Svg, 0, ".", "a b.pdf"),
        "Wrote 0 SVG files to . (input: a b.pdf)"
    );
}

#[test]
fn summary_of_one_file_is_singular() {
    assert_eq!(
        render_summary(Format::Svg, 1, "out/dir", "in.pdf"),
        "Wrote 1 SVG file to out/dir (input: in.pdf)"
    );
}

#[test]
fn quiet_drops_information_only() {
    assert!(is_logged(LogLevel::Info, false));
    assert!(!is_logged(LogLevel::Info, true));
    assert!(is_logged(LogLevel::Error, false));
    assert!(is_logged(LogLevel::Error, true));
}
