//! Which pages of a document are converted.
//!
//! Users number pages from 1; a selection holds indices that count from 0.
//! A request is checked against the document's page count as a whole: every
//! number that is 0 or beyond the last page is reported, each once and in
//! ascending order, in a single message.

use std::collections::HashSet;
use vstd::prelude::*;
use vstd::string::StringExecFns;
use crate::text::{decimal, push_decimal};

verus! {

/// The pages chosen for conversion: all of them, or those whose 0-based
/// index the set holds.
#[derive(Debug, PartialEq, Eq)]
pub enum Selection {
    All,
    Pages(HashSet<usize>),
}

/// The mathematical value of a [`Selection`].
pub enum SelectionView {
    All,
    Pages(Set<usize>),
}

impl SelectionView {
    /// Whether the page with the 0-based index `index` is chosen.
    pub open spec fn selects(self, index: usize) -> bool {
        match self {
            SelectionView::All => true,
            SelectionView::Pages(set) => set.contains(index),
        }
    }

    /// Whether every index that is named lies in a document of `total` pages.
    pub open spec fn within(self, total: usize) -> bool {
        match self {
            SelectionView::All => true,
            SelectionView::Pages(set) => forall|index: usize| set.contains(index) ==> index < total,
        }
    }
}

impl View for Selection {
    type V = SelectionView;

    open spec fn view(&self) -> SelectionView {
        match self {
            Selection::All => SelectionView::All,
            Selection::Pages(set) => SelectionView::Pages(set@),
        }
    }
}

impl Selection {
    /// Whether the page with the 0-based index `index` is chosen.
    pub fn selects(&self, index: usize) -> (chosen: bool)
        ensures
            chosen == self@.selects(index),
    {
        broadcast use vstd::std_specs::hash::group_hash_axioms;

        match self {
            Selection::All => true,
            Selection::Pages(set) => set.contains(&index),
        }
    }

    /// Whether nothing is filtered out.
    pub fn is_all(&self) -> (all: bool)
        ensures
            all == (self@ is All),
    {
        match self {
            Selection::All => true,
            Selection::Pages(_) => false,
        }
    }
}

/// Whether the 1-based page number `page` names no page of a document of
/// `total` pages.
pub open spec fn is_invalid(page: usize, total: usize) -> bool {
    page == 0 || page > total
}

/// Whether some number in `requested` names no page.
pub open spec fn has_invalid(requested: Seq<usize>, total: usize) -> bool {
    exists|k: int| 0 <= k < requested.len() && is_invalid(#[trigger] requested[k], total)
}

/// The distinct page numbers among `requested` that name no page.
pub open spec fn invalid_pages(requested: Seq<usize>, total: usize) -> Set<usize> {
    Set::new(|page: usize| requested.contains(page) && is_invalid(page, total))
}

/// The 0-based indices of the pages that `requested` names.
pub open spec fn requested_indices(requested: Seq<usize>) -> Set<usize> {
    Set::new(
        |index: usize|
            exists|k: int| 0 <= k < requested.len() && #[trigger] requested[k] == index + 1,
    )
}

/// Whether each element of `list` is smaller than the next.
pub open spec fn strictly_ascending(list: Seq<usize>) -> bool {
    forall|i: int, j: int| 0 <= i < j < list.len() ==> list[i] < list[j]
}

/// Whether `list` holds exactly the members of `set`, each once, smallest
/// first.
pub open spec fn is_ascending_listing(list: Seq<usize>, set: Set<usize>) -> bool {
    &&& strictly_ascending(list)
    &&& forall|page: usize|
        #![trigger set.contains(page)]
        #![trigger list.contains(page)]
        set.contains(page) <==> list.contains(page)
}

/// The members of `set` in ascending order.
pub open spec fn ascending(set: Set<usize>) -> Seq<usize> {
    choose|list: Seq<usize>| is_ascending_listing(list, set)
}

/// The decimal notations of the numbers in `list`, separated by a comma and
/// a space.
pub open spec fn joined(list: Seq<usize>) -> Seq<char>
    decreases list.len(),
{
    if list.len() == 0 {
        Seq::empty()
    } else if list.len() == 1 {
        decimal(list[0] as nat)
    } else {
        joined(list.drop_last()) + ", "@ + decimal(list.last() as nat)
    }
}

/// The message that reports the page numbers in `list` as invalid for a
/// document of `total` pages.
pub open spec fn invalid_pages_message(list: Seq<usize>, total: usize) -> Seq<char> {
    "Invalid requested page(s): "@ + joined(list) + ". The page numbers must be between 1 and "@
        + decimal(total as nat) + "."@
}

/// The outcome of checking `requested` against a document of `total` pages.
pub open spec fn validation(requested: Seq<usize>, total: usize) -> Result<
    SelectionView,
    Seq<char>,
> {
    if requested.len() == 0 {
        Ok(SelectionView::All)
    } else if has_invalid(requested, total) {
        Err(invalid_pages_message(ascending(invalid_pages(requested, total)), total))
    } else {
        Ok(SelectionView::Pages(requested_indices(requested)))
    }
}

/// A set has at most one ascending listing.
pub proof fn lemma_ascending_listing_unique(a: Seq<usize>, b: Seq<usize>, set: Set<usize>)
    requires
        is_ascending_listing(a, set),
        is_ascending_listing(b, set),
    ensures
        a == b,
    decreases a.len(),
{
    if a.len() == 0 {
        if b.len() > 0 {
            assert(b.contains(b[0]));
            assert(a.contains(b[0]));
        }
        assert(a =~= b);
    } else {
        assert(a.contains(a.last()));
        assert(b.contains(a.last()));
        assert(b.len() > 0);
        assert(b.contains(b.last()));
        assert(a.contains(b.last()));
        let top = a.last();
        assert(top == b.last()) by {
            let i = choose|i: int| 0 <= i < b.len() && b[i] == a.last();
            let j = choose|j: int| 0 <= j < a.len() && a[j] == b.last();
            assert(b[i] <= b.last());
            assert(a[j] <= a.last());
        }
        let rest = set.remove(top);
        let a0 = a.drop_last();
        let b0 = b.drop_last();
        assert(is_ascending_listing(a0, rest)) by {
            lemma_drop_last_listing(a, set);
        }
        assert(is_ascending_listing(b0, rest)) by {
            lemma_drop_last_listing(b, set);
        }
        lemma_ascending_listing_unique(a0, b0, rest);
        assert(a =~= a0.push(top));
        assert(b =~= b0.push(top));
    }
}

proof fn lemma_drop_last_listing(list: Seq<usize>, set: Set<usize>)
    requires
        list.len() > 0,
        is_ascending_listing(list, set),
    ensures
        is_ascending_listing(list.drop_last(), set.remove(list.last())),
{
    let top = list.last();
    let shorter = list.drop_last();
    let rest = set.remove(top);
    assert forall|page: usize| rest.contains(page) <==> shorter.contains(page) by {
        if rest.contains(page) {
            assert(list.contains(page));
            let i = choose|i: int| 0 <= i < list.len() && list[i] == page;
            assert(i < list.len() - 1);
            assert(shorter[i] == page);
        }
        if shorter.contains(page) {
            let i = choose|i: int| 0 <= i < shorter.len() && shorter[i] == page;
            assert(list[i] == page);
            assert(list[i] < list[list.len() - 1]);
            assert(list.contains(page));
        }
    }
}

/// The listing that `ascending` picks for a set is the one ascending listing
/// that the set has.
pub proof fn lemma_ascending_is(list: Seq<usize>, set: Set<usize>)
    requires
        is_ascending_listing(list, set),
    ensures
        ascending(set) == list,
{
    lemma_ascending_listing_unique(ascending(set), list, set);
}

proof fn lemma_has_largest(set: Set<usize>)
    requires
        set.finite(),
        set.len() > 0,
    ensures
        exists|top: usize|
            #![trigger set.contains(top)]
            set.contains(top) && forall|page: usize| set.contains(page) ==> page <= top,
    decreases set.len(),
{
    let one = set.choose();
    let rest = set.remove(one);
    assert(set.contains(one));
    if rest.len() == 0 {
        assert forall|page: usize| set.contains(page) implies page <= one by {
            if page != one {
                assert(rest.contains(page));
            }
        }
    } else {
        lemma_has_largest(rest);
        let other = choose|top: usize|
            #![trigger rest.contains(top)]
            rest.contains(top) && forall|page: usize| rest.contains(page) ==> page <= top;
        let top = if one > other {
            one
        } else {
            other
        };
        assert(set.contains(top));
        assert forall|page: usize| set.contains(page) implies page <= top by {
            if page != one {
                assert(rest.contains(page));
            }
        }
    }
}

/// Every finite set has an ascending listing, and `ascending` gives it.
pub proof fn lemma_ascending_exists(set: Set<usize>)
    requires
        set.finite(),
    ensures
        is_ascending_listing(ascending(set), set),
    decreases set.len(),
{
    if set.len() == 0 {
        let list = Seq::<usize>::empty();
        assert forall|page: usize|
            #![trigger set.contains(page)]
            #![trigger list.contains(page)]
            set.contains(page) <==> list.contains(page) by {}
        assert(is_ascending_listing(list, set));
    } else {
        lemma_has_largest(set);
        let top = choose|top: usize|
            #![trigger set.contains(top)]
            set.contains(top) && forall|page: usize| set.contains(page) ==> page <= top;
        let rest = set.remove(top);
        lemma_ascending_exists(rest);
        let shorter = ascending(rest);
        let list = shorter.push(top);
        assert forall|i: int, j: int| 0 <= i < j < list.len() implies list[i] < list[j] by {
            assert(shorter.contains(shorter[i]));
            assert(rest.contains(shorter[i]));
            if j < shorter.len() {
                assert(list[i] == shorter[i] && list[j] == shorter[j]);
            }
        }
        assert forall|page: usize|
            #![trigger set.contains(page)]
            #![trigger list.contains(page)]
            set.contains(page) <==> list.contains(page) by {
            if set.contains(page) {
                if page == top {
                    assert(list[list.len() - 1] == page);
                } else {
                    assert(rest.contains(page));
                    assert(shorter.contains(page));
                    let i = choose|i: int| 0 <= i < shorter.len() && shorter[i] == page;
                    assert(list[i] == page);
                }
            }
            if list.contains(page) {
                let i = choose|i: int| 0 <= i < list.len() && list[i] == page;
                if i < shorter.len() {
                    assert(shorter[i] == page);
                    assert(shorter.contains(page));
                    assert(rest.contains(page));
                }
            }
        }
        assert(is_ascending_listing(list, set));
    }
}

/// The invalid numbers of a request are finitely many, and the message
/// lists them: each once, smallest first.
pub proof fn lemma_invalid_pages_listed(requested: Seq<usize>, total: usize)
    ensures
        invalid_pages(requested, total).finite(),
        is_ascending_listing(
            ascending(invalid_pages(requested, total)),
            invalid_pages(requested, total),
        ),
{
    let invalid = invalid_pages(requested, total);
    vstd::seq_lib::seq_to_set_is_finite(requested);
    assert(invalid.subset_of(requested.to_set())) by {
        assert forall|page: usize| invalid.contains(page) implies requested.to_set().contains(
            page,
        ) by {}
    }
    vstd::set_lib::lemma_set_subset_finite(requested.to_set(), invalid);
    lemma_ascending_exists(invalid);
}

/// Neither the order of a request nor how often it names a page matters:
/// two requests that name the same numbers have the same outcome.
pub proof fn lemma_validation_by_numbers(first: Seq<usize>, second: Seq<usize>, total: usize)
    requires
        first.len() > 0,
        second.len() > 0,
        forall|page: usize| first.contains(page) <==> second.contains(page),
    ensures
        validation(first, total) == validation(second, total),
{
    assert(invalid_pages(first, total) =~= invalid_pages(second, total));
    assert(requested_indices(first) =~= requested_indices(second)) by {
        assert forall|index: usize|
            requested_indices(first).contains(index) <==> requested_indices(second).contains(
                index,
            ) by {
            if requested_indices(first).contains(index) {
                let k = choose|k: int| 0 <= k < first.len() && #[trigger] first[k] == index + 1;
                assert(first.contains(first[k]));
                assert(second.contains(first[k]));
                let j = choose|j: int| 0 <= j < second.len() && second[j] == first[k];
                assert(second[j] == index + 1);
            }
            if requested_indices(second).contains(index) {
                let k = choose|k: int| 0 <= k < second.len() && #[trigger] second[k] == index + 1;
                assert(second.contains(second[k]));
                assert(first.contains(second[k]));
                let j = choose|j: int| 0 <= j < first.len() && first[j] == second[k];
                assert(first[j] == index + 1);
            }
        }
    }
    if has_invalid(first, total) {
        let k = choose|k: int| 0 <= k < first.len() && is_invalid(#[trigger] first[k], total);
        assert(first.contains(first[k]));
        assert(second.contains(first[k]));
        let j = choose|j: int| 0 <= j < second.len() && second[j] == first[k];
        assert(is_invalid(second[j], total));
    }
    if has_invalid(second, total) {
        let k = choose|k: int| 0 <= k < second.len() && is_invalid(#[trigger] second[k], total);
        assert(second.contains(second[k]));
        assert(first.contains(second[k]));
        let j = choose|j: int| 0 <= j < first.len() && first[j] == second[k];
        assert(is_invalid(first[j], total));
    }
}

/// A request that passes names only pages of the document, and every index
/// it selects was asked for.
pub proof fn lemma_valid_selection_within(requested: Seq<usize>, total: usize)
    requires
        validation(requested, total) is Ok,
    ensures
        validation(requested, total)->Ok_0.within(total),
        requested.len() > 0 ==> forall|index: usize|
            validation(requested, total)->Ok_0.selects(index) <==> index < total
                && requested.contains((index + 1) as usize),
{
    if requested.len() > 0 {
        let indices = requested_indices(requested);
        assert forall|index: usize| indices.contains(index) implies index < total
            && requested.contains((index + 1) as usize) by {
            let k = choose|k: int| 0 <= k < requested.len() && #[trigger] requested[k] == index + 1;
            assert(!is_invalid(requested[k], total));
        }
        assert forall|index: usize|
            index < total && requested.contains((index + 1) as usize) implies indices.contains(
            index,
        ) by {
            let k = choose|k: int| 0 <= k < requested.len() && requested[k] == (index + 1) as usize;
            assert(requested[k] == index + 1);
        }
    }
}

/// Puts `page` into the ascending list, unless it is there already.
fn insert_ascending(list: &mut Vec<usize>, page: usize)
    requires
        strictly_ascending(old(list)@),
    ensures
        strictly_ascending(final(list)@),
        forall|other: usize|
            #![trigger final(list)@.contains(other)]
            #![trigger old(list)@.contains(other)]
            final(list)@.contains(other) <==> old(list)@.contains(other) || other == page,
{
    let mut at: usize = 0;
    while at < list.len() && list[at] < page
        invariant
            at <= list.len(),
            *list == *old(list),
            forall|i: int| 0 <= i < at ==> list@[i] < page,
        decreases list.len() - at,
    {
        at = at + 1;
    }
    if at < list.len() && list[at] == page {
        assert(list@.contains(page));
        return ;
    }
    let ghost before = list@;
    list.insert(at, page);
    proof {
        let after = list@;
        assert(after == before.insert(at as int, page));
        assert forall|i: int, j: int| 0 <= i < j < after.len() implies after[i] < after[j] by {
            if j < at {
                assert(after[i] == before[i] && after[j] == before[j]);
            } else if j == at {
                assert(after[i] == before[i]);
            } else if i < at {
                assert(after[i] == before[i] && after[j] == before[j - 1]);
            } else if i == at {
                assert(after[j] == before[j - 1]);
                assert(before[at as int] <= before[j - 1]);
            } else {
                assert(after[i] == before[i - 1] && after[j] == before[j - 1]);
            }
        }
        assert forall|other: usize|
            after.contains(other) <==> before.contains(other) || other == page by {
            if after.contains(other) {
                let i = choose|i: int| 0 <= i < after.len() && after[i] == other;
                if i < at {
                    assert(before[i] == other);
                } else if i > at {
                    assert(before[i - 1] == other);
                }
            }
            if before.contains(other) {
                let i = choose|i: int| 0 <= i < before.len() && before[i] == other;
                if i < at {
                    assert(after[i] == other);
                } else {
                    assert(after[i + 1] == other);
                }
            }
            if other == page {
                assert(after[at as int] == page);
            }
        }
    }
}

/// The invalid page numbers among `requested`, each once, smallest first.
fn invalid_listing(requested: &[usize], total: usize) -> (list: Vec<usize>)
    ensures
        is_ascending_listing(list@, invalid_pages(requested@, total)),
        list@.len() > 0 <==> has_invalid(requested@, total),
{
    let mut list: Vec<usize> = Vec::new();
    let mut i: usize = 0;
    proof {
        assert forall|page: usize| !list@.contains(page) by {}
        assert forall|page: usize| !requested@.take(0).contains(page) by {}
    }
    while i < requested.len()
        invariant
            i <= requested.len(),
            is_ascending_listing(list@, invalid_pages(requested@.take(i as int), total)),
        decreases requested.len() - i,
    {
        let page: usize = requested[i];
        let ghost seen = requested@.take(i as int);
        let ghost next = requested@.take(i + 1);
        let ghost before = list@;
        if page == 0 || page > total {
            insert_ascending(&mut list, page);
        }
        proof {
            assert(next == seen.push(page));
            assert forall|other: usize|
                #![trigger invalid_pages(next, total).contains(other)]
                #![trigger list@.contains(other)]
                invalid_pages(next, total).contains(other) <==> list@.contains(other) by {
                assert(invalid_pages(seen, total).contains(other) <==> before.contains(other));
                assert(list@.contains(other) <==> before.contains(other) || (other == page
                    && is_invalid(page, total)));
                if next.contains(other) {
                    let k = choose|k: int| 0 <= k < next.len() && next[k] == other;
                    if k < seen.len() {
                        assert(seen[k] == other);
                    }
                }
                if seen.contains(other) {
                    let k = choose|k: int| 0 <= k < seen.len() && seen[k] == other;
                    assert(next[k] == other);
                }
                if other == page {
                    assert(next[i as int] == page);
                }
            }
        }
        i = i + 1;
    }
    proof {
        assert(requested@.take(requested.len() as int) == requested@);
        let invalid = invalid_pages(requested@, total);
        if list@.len() > 0 {
            let first = list@[0];
            assert(list@.contains(first));
            assert(invalid.contains(first));
            let k = choose|k: int| 0 <= k < requested@.len() && requested@[k] == first;
            assert(is_invalid(requested[k], total));
        }
        if has_invalid(requested@, total) {
            let k = choose|k: int|
                0 <= k < requested.len() && is_invalid(#[trigger] requested@[k], total);
            assert(requested@.contains(requested[k]));
            assert(invalid.contains(requested[k]));
            assert(list@.contains(requested[k]));
        }
    }
    list
}

/// Writes the message that reports `list` as invalid.
fn invalid_pages_text(list: &Vec<usize>, total: usize) -> (message: String)
    ensures
        message@ == invalid_pages_message(list@, total),
{
    let mut message = String::new();
    message.append("Invalid requested page(s): ");
    let ghost head = message@;
    let mut i: usize = 0;
    while i < list.len()
        invariant
            i <= list.len(),
            message@ == head + joined(list@.take(i as int)),
        decreases list.len() - i,
    {
        proof {
            assert(list@.take(i + 1).drop_last() == list@.take(i as int));
        }
        if i > 0 {
            message.append(", ");
        }
        push_decimal(&mut message, list[i] as u128);
        i = i + 1;
    }
    proof {
        assert(list@.take(list.len() as int) == list@);
    }
    message.append(". The page numbers must be between 1 and ");
    push_decimal(&mut message, total as u128);
    message.append(".");
    message
}

/// Checks the 1-based page numbers in `requested` against a document of
/// `total` pages. An empty request selects all pages. Otherwise every
/// number must name a page; the numbers that do not are reported together,
/// and where all do, their 0-based indices are the selection.
pub fn validate_requested_pages(requested: &[usize], total: usize) -> (outcome: Result<
    Selection,
    String,
>)
    ensures
        outcome is Err <==> has_invalid(requested@, total),
        match outcome {
            Ok(selection) => validation(requested@, total) == Ok::<SelectionView, Seq<char>>(
                selection@,
            ) && selection@.within(total),
            Err(message) => validation(requested@, total) == Err::<SelectionView, Seq<char>>(
                message@,
            ),
        },
{
    broadcast use vstd::std_specs::hash::group_hash_axioms;

    if requested.len() == 0 {
        return Ok(Selection::All);
    }
    let invalid = invalid_listing(requested, total);
    if invalid.len() > 0 {
        proof {
            lemma_ascending_is(invalid@, invalid_pages(requested@, total));
        }
        return Err(invalid_pages_text(&invalid, total));
    }
    let mut set: HashSet<usize> = HashSet::new();
    let mut i: usize = 0;
    while i < requested.len()
        invariant
            i <= requested.len(),
            forall|k: int| 0 <= k < requested.len() ==> !is_invalid(#[trigger] requested[k], total),
            set@ == requested_indices(requested@.take(i as int)),
        decreases requested.len() - i,
    {
        let page: usize = requested[i];
        assert(!is_invalid(requested[i as int], total));
        let ghost seen = requested@.take(i as int);
        let ghost next = requested@.take(i + 1);
        set.insert(page - 1);
        proof {
            assert(next == seen.push(page));
            assert(set@ =~= requested_indices(next)) by {
                assert forall|index: usize|
                    requested_indices(next).contains(index) <==> requested_indices(seen).contains(
                        index,
                    ) || index == page - 1 by {
                    if requested_indices(next).contains(index) {
                        let k = choose|k: int|
                            0 <= k < next.len() && #[trigger] next[k] == index + 1;
                        if k < seen.len() {
                            assert(seen[k] == index + 1);
                        }
                    }
                    if requested_indices(seen).contains(index) {
                        let k = choose|k: int|
                            0 <= k < seen.len() && #[trigger] seen[k] == index + 1;
                        assert(next[k] == index + 1);
                    }
                    if index == page - 1 {
                        assert(next[i as int] == index + 1);
                    }
                }
            }
        }
        i = i + 1;
    }
    proof {
        assert(requested@.take(requested.len() as int) == requested@);
        lemma_valid_selection_within(requested@, total);
    }
    Ok(Selection::Pages(set))
}

} // verus!
