//! What a run writes: one file per chosen page, named by the prefix, the
//! page's 1-based number and the format's extension, in document order.

use vstd::prelude::*;
use vstd::string::StringExecFns;
use crate::pages::{Selection, SelectionView, strictly_ascending};
use crate::text::{decimal, lemma_decimal_round_trip, push_decimal};

verus! {

/// The format of the files that are written.
#[derive(Debug, Clone, Copy, PartialEq, Eq, Structural)]
pub enum Format {
    Png,
    Svg,
}

impl Format {
    /// The extension of a file of this format, without the dot.
    pub open spec fn extension_text(self) -> Seq<char> {
        match self {
            Format::Png => "png"@,
            Format::Svg => "svg"@,
        }
    }

    /// The name of the format as messages show it.
    pub open spec fn label_text(self) -> Seq<char> {
        match self {
            Format::Png => "PNG"@,
            Format::Svg => "SVG"@,
        }
    }

    /// The extension of a file of this format, without the dot.
    pub fn extension(self) -> (text: &'static str)
        ensures
            text@ == self.extension_text(),
    {
        match self {
            Format::Png => "png",
            Format::Svg => "svg",
        }
    }

    /// The name of the format as messages show it.
    pub fn label(self) -> (text: &'static str)
        ensures
            text@ == self.label_text(),
    {
        match self {
            Format::Png => "PNG",
            Format::Svg => "SVG",
        }
    }
}

/// One file to write: the page it shows, by 0-based index, and its name.
#[derive(Debug, PartialEq, Eq)]
pub struct RenderJob {
    pub page_index: usize,
    pub file_name: String,
}

/// The name of the file for the page with the 0-based index `index`: the
/// prefix, the page's 1-based number, a dot and the extension.
pub open spec fn file_name_of(prefix: Seq<char>, index: usize, format: Format) -> Seq<char> {
    prefix + decimal((index + 1) as nat) + "."@ + format.extension_text()
}

/// The 0-based indices below `total` that `selection` chooses, in ascending
/// order.
pub open spec fn planned_pages(selection: SelectionView, total: usize) -> Seq<usize>
    decreases total,
{
    if total == 0 {
        Seq::empty()
    } else {
        let index = (total - 1) as usize;
        let before = planned_pages(selection, index);
        if selection.selects(index) {
            before.push(index)
        } else {
            before
        }
    }
}

/// The planned pages are the chosen pages of the document, each once and in
/// document order. Where all pages are chosen, they are all the pages.
pub proof fn lemma_planned_pages(selection: SelectionView, total: usize)
    ensures
        strictly_ascending(planned_pages(selection, total)),
        forall|index: usize|
            #![trigger planned_pages(selection, total).contains(index)]
            planned_pages(selection, total).contains(index) <==> index < total && selection.selects(
                index,
            ),
        planned_pages(selection, total).len() <= total,
        selection is All ==> planned_pages(selection, total) == Seq::new(
            total as nat,
            |i: int| i as usize,
        ),
    decreases total,
{
    let planned = planned_pages(selection, total);
    if total > 0 {
        let last = (total - 1) as usize;
        let before = planned_pages(selection, last);
        lemma_planned_pages(selection, last);
        assert forall|i: int| 0 <= i < before.len() implies #[trigger] before[i] < last by {
            assert(before.contains(before[i]));
        }
        assert forall|index: usize| #![trigger planned.contains(index)]
            planned.contains(index) <==> index < total && selection.selects(index) by {
            if planned.contains(index) {
                let i = choose|i: int| 0 <= i < planned.len() && planned[i] == index;
                if i < before.len() {
                    assert(before[i] == index);
                    assert(before.contains(index));
                }
            }
            if index < total && selection.selects(index) {
                if index < last {
                    assert(before.contains(index));
                    let i = choose|i: int| 0 <= i < before.len() && before[i] == index;
                    assert(planned[i] == index);
                } else {
                    assert(planned[planned.len() - 1] == index);
                }
            }
        }
        if selection is All {
            assert(planned =~= Seq::new(total as nat, |i: int| i as usize));
        }
    } else {
        assert(planned =~= Seq::new(total as nat, |i: int| i as usize));
    }
}

/// A selection that stays within the document yields one file for each page
/// that it names.
pub proof fn lemma_planned_count(pages: Set<usize>, total: usize)
    requires
        SelectionView::Pages(pages).within(total),
        pages.finite(),
    ensures
        planned_pages(SelectionView::Pages(pages), total).len() == pages.len(),
{
    let selection = SelectionView::Pages(pages);
    let planned = planned_pages(selection, total);
    lemma_planned_pages(selection, total);
    assert(planned.no_duplicates());
    planned.unique_seq_to_set();
    assert(planned.to_set() =~= pages) by {
        assert forall|index: usize| planned.to_set().contains(index) <==> pages.contains(index) by {
            assert(planned.to_set().contains(index) <==> planned.contains(index));
            assert(planned.contains(index) <==> index < total && selection.selects(index));
        }
    }
}

/// Different pages get different file names, so no file of a run replaces
/// another.
pub proof fn lemma_file_names_distinct(
    prefix: Seq<char>,
    first: usize,
    second: usize,
    format: Format,
)
    requires
        first != second,
    ensures
        file_name_of(prefix, first, format) != file_name_of(prefix, second, format),
{
    let a = decimal((first + 1) as nat);
    let b = decimal((second + 1) as nat);
    let x = file_name_of(prefix, first, format);
    let y = file_name_of(prefix, second, format);
    if x == y {
        assert(x.len() == prefix.len() + a.len() + 1 + format.extension_text().len()) by {
            reveal_strlit(".");
        }
        assert(y.len() == prefix.len() + b.len() + 1 + format.extension_text().len()) by {
            reveal_strlit(".");
        }
        assert(a.len() == b.len());
        assert forall|i: int| 0 <= i < a.len() implies a[i] == b[i] by {
            assert(x[prefix.len() + i] == a[i]);
            assert(y[prefix.len() + i] == b[i]);
        }
        assert(a =~= b);
        lemma_decimal_round_trip((first + 1) as nat);
        lemma_decimal_round_trip((second + 1) as nat);
    }
}

/// Names the file for the page with the 0-based index `index`.
pub fn output_file_name(prefix: &str, index: usize, format: Format) -> (name: String)
    ensures
        name@ == file_name_of(prefix@, index, format),
{
    let mut name = String::new();
    name.append(prefix);
    push_decimal(&mut name, index as u128 + 1);
    name.append(".");
    name.append(format.extension());
    name
}

/// Plans the files of a run on a document of `total` pages: one job for
/// each chosen page, in document order.
pub fn plan_outputs(selection: &Selection, total: usize, prefix: &str, format: Format) -> (jobs:
    Vec<RenderJob>)
    ensures
        jobs@.len() == planned_pages(selection@, total).len(),
        forall|k: int|
            0 <= k < jobs@.len() ==> {
                &&& (#[trigger] jobs@[k]).page_index == planned_pages(selection@, total)[k]
                &&& jobs@[k].file_name@ == file_name_of(prefix@, jobs@[k].page_index, format)
            },
{
    let mut jobs: Vec<RenderJob> = Vec::new();
    let mut index: usize = 0;
    while index < total
        invariant
            index <= total,
            jobs@.len() == planned_pages(selection@, index).len(),
            forall|k: int|
                0 <= k < jobs@.len() ==> {
                    &&& (#[trigger] jobs@[k]).page_index == planned_pages(selection@, index)[k]
                    &&& jobs@[k].file_name@ == file_name_of(prefix@, jobs@[k].page_index, format)
                },
        decreases total - index,
    {
        if selection.selects(index) {
            let file_name = output_file_name(prefix, index, format);
            jobs.push(RenderJob { page_index: index, file_name });
        }
        index = index + 1;
    }
    jobs
}

} // verus!
