//! Listing an assignment: from the submissions that the backend reports to
//! a store that holds them all, unloaded, in display order.

use vstd::prelude::*;
use crate::amount::two_places;
use crate::imark::{Globals, Journal, JournalMeta, JournalTag, MetaView, TagView};
use crate::journals::{insertion_point, Journals, StoreError};
use crate::text::{align_right, chars_of, contains_chars, contains_text, right_aligned};
use crate::marking::FetchJournalsOutput;

verus! {

/// Why an assignment could not be listed.
#[derive(Debug)]
pub enum ListingError {
    /// The backend reported no submission.
    NoJournals,
    /// The backend reported this submission twice.
    Duplicate(JournalTag),
}

/// The tags of `submissions`, in the order in which they were reported.
pub open spec fn reported_tags(submissions: Seq<(JournalTag, JournalMeta)>) -> Seq<TagView> {
    Seq::new(submissions.len(), |i: int| submissions[i].0@)
}

/// The display order after `submissions` were listed one by one: the tags,
/// and beside them the summaries.
pub open spec fn listed_in_order(submissions: Seq<(JournalTag, JournalMeta)>) -> (Seq<TagView>, Seq<MetaView>)
    decreases submissions.len(),
{
    if submissions.len() == 0 {
        (Seq::empty(), Seq::empty())
    } else {
        let (tags, listed) = listed_in_order(submissions.drop_last());
        let at = insertion_point(listed, submissions.last().1@);
        (tags.insert(at, submissions.last().0@), listed.insert(at, submissions.last().1@))
    }
}

/// The place of the first of `tags` that occurred before it, or the number of
/// tags where each occurs once.
pub open spec fn first_repeat(tags: Seq<TagView>) -> int
    decreases tags.len(),
{
    if tags.len() == 0 {
        0
    } else if first_repeat(tags.drop_last()) < tags.len() - 1 {
        first_repeat(tags.drop_last())
    } else if tags.drop_last().contains(tags.last()) {
        tags.len() - 1
    } else {
        tags.len() as int
    }
}

/// A repeat among the first `upto` tags is the first repeat among all.
pub proof fn lemma_first_repeat_stays(tags: Seq<TagView>, upto: int)
    requires
        0 <= upto <= tags.len(),
        first_repeat(tags.take(upto)) < upto,
    ensures
        first_repeat(tags) == first_repeat(tags.take(upto)),
    decreases tags.len() - upto,
{
    if upto < tags.len() {
        assert(tags.drop_last().take(upto) =~= tags.take(upto));
        lemma_first_repeat_stays(tags.drop_last(), upto);
    } else {
        assert(tags.take(upto) =~= tags);
    }
}

/// The store of an assignment whose submissions the backend reported as
/// `submissions`. Every submission enters unloaded, under the summary that
/// was reported, at its place in the display order. An empty report is
/// refused, and so is one that names a submission twice.
pub fn list_journals(
    globals: Globals,
    assignment: String,
    submissions: &Vec<(JournalTag, JournalMeta)>,
) -> (listed: Result<FetchJournalsOutput, ListingError>)
    ensures
        match listed {
            Ok(output) => {
                &&& submissions@.len() > 0
                &&& first_repeat(reported_tags(submissions@)) == submissions@.len()
                &&& output.assignment == assignment
                &&& output.journals@.wf()
                &&& output.journals@.globals == globals@
                &&& output.journals@.queue.len() == 0
                &&& (output.journals@.tags, output.journals@.listed) == listed_in_order(
                    submissions@,
                )
                &&& forall|i: int|
                    0 <= i < output.journals@.journals.len() ==> (
                    #[trigger] output.journals@.journals[i]) is Unloaded
                        && output.journals@.journals[i].spec_meta()@
                        == output.journals@.listed[i]
            },
            Err(ListingError::NoJournals) => submissions@.len() == 0,
            Err(ListingError::Duplicate(tag)) => {
                let at = first_repeat(reported_tags(submissions@));
                &&& at < submissions@.len()
                &&& tag == submissions@[at].0
            },
        },
{
    if submissions.len() == 0 {
        return Err(ListingError::NoJournals);
    }
    let mut journals = Journals::new(globals);
    let ghost all = submissions@;
    let mut index: usize = 0;
    assert(all.take(0) =~= Seq::<(JournalTag, JournalMeta)>::empty());
    assert(journals@.tags =~= Seq::<TagView>::empty());
    assert(journals@.listed =~= Seq::<MetaView>::empty());
    while index < submissions.len()
        invariant
            index <= submissions@.len(),
            all == submissions@,
            journals@.wf(),
            journals@.globals == globals@,
            journals@.queue.len() == 0,
            first_repeat(reported_tags(all.take(index as int))) == index,
            (journals@.tags, journals@.listed) == listed_in_order(all.take(index as int)),
            forall|t: TagView|
                journals@.tags.contains(t) <==> reported_tags(all.take(index as int)).contains(t),
            forall|i: int|
                0 <= i < journals@.journals.len() ==> (#[trigger] journals@.journals[i]) is Unloaded
                    && journals@.journals[i].spec_meta()@ == journals@.listed[i],
        decreases submissions.len() - index,
    {
        let ghost before = journals@;
        let ghost seen = all.take(index as int);
        let ghost grown = all.take(index + 1);
        let tag = submissions[index].0.clone();
        let meta = submissions[index].1.clone();
        proof {
            assert(grown.drop_last() =~= seen);
            assert(grown.last() == all[index as int]);
            assert(reported_tags(grown).drop_last() =~= reported_tags(seen));
            assert(reported_tags(grown).last() == tag@);
        }
        match journals.insert(tag, meta) {
            Ok(()) => {
                proof {
                    let at = insertion_point(before.listed, meta@);
                    assert forall|t: TagView| journals@.tags.contains(t) <==> reported_tags(
                        grown,
                    ).contains(t) by {
                        if journals@.tags.contains(t) {
                            let i = choose|i: int| 0 <= i < journals@.tags.len() && journals@.tags[i] == t;
                            if i != at {
                                let j = if i < at {
                                    i
                                } else {
                                    i - 1
                                };
                                assert(before.tags[j] == t);
                                assert(before.tags.contains(t));
                                let k = choose|k: int|
                                    0 <= k < reported_tags(seen).len() && reported_tags(seen)[k] == t;
                                assert(reported_tags(grown)[k] == t);
                            } else {
                                assert(reported_tags(grown)[index as int] == t);
                            }
                        }
                        if reported_tags(grown).contains(t) {
                            let k = choose|k: int|
                                0 <= k < reported_tags(grown).len() && reported_tags(grown)[k] == t;
                            if k < index {
                                assert(reported_tags(seen)[k] == t);
                                assert(reported_tags(seen).contains(t));
                                assert(before.tags.contains(t));
                                let i = choose|i: int| 0 <= i < before.tags.len() && before.tags[i] == t;
                                let j = if i < at {
                                    i
                                } else {
                                    i + 1
                                };
                                assert(journals@.tags[j] == t);
                            } else {
                                assert(journals@.tags[at] == t);
                            }
                        }
                    }
                    assert forall|i: int| 0 <= i < journals@.journals.len() implies (
                    #[trigger] journals@.journals[i]) is Unloaded
                        && journals@.journals[i].spec_meta()@ == journals@.listed[i] by {
                        if i != at {
                            let j = if i < at {
                                i
                            } else {
                                i - 1
                            };
                            assert(journals@.journals.remove(at)[j] == journals@.journals[i]);
                            assert(before.journals[j] == journals@.journals[i]);
                        }
                    }
                }
            },
            Err(StoreError::DuplicateJournal(refused)) => {
                proof {
                    assert(reported_tags(seen).contains(tag@));
                    assert(reported_tags(grown).drop_last().contains(reported_tags(grown).last()));
                    assert(first_repeat(reported_tags(grown)) == index);
                    assert(reported_tags(all).take(index + 1) =~= reported_tags(grown));
                    lemma_first_repeat_stays(reported_tags(all), index + 1);
                }
                return Err(ListingError::Duplicate(refused));
            },
            Err(_) => {
                return Err(ListingError::NoJournals);
            },
        }
        index = index + 1;
    }
    proof {
        assert(all.take(index as int) =~= all);
    }
    Ok(FetchJournalsOutput { assignment, journals })
}

/// What `str::to_uppercase` makes of a text: each character replaced by its
/// upper case form, which may be more than one character.
pub uninterp spec fn uppercase(text: Seq<char>) -> Seq<char>;

/// `str::to_uppercase`: the text in upper case. The result is named, not
/// spelled out: it is Unicode's mapping.
#[verifier::external_body]
fn to_upper(text: &str) -> (upper: String)
    ensures
        upper@ == uppercase(text@),
{
    text.to_uppercase()
}

/// The mark that a list shows beside a submission: the awarded mark with
/// two decimal places, filled to five places from the left; without one, the
/// provisional mark in the same form with a question mark behind it; without
/// either, nothing.
pub open spec fn mark_label(meta: MetaView) -> Option<Seq<char>> {
    match meta.mark {
        Some(mark) => Some(right_aligned(two_places(mark), 5)),
        None => match meta.provisional_mark {
            Some(mark) => Some(right_aligned(two_places(mark), 5) + seq!['?']),
            None => None,
        },
    }
}

/// The mark that a list shows beside the submission with summary `meta`.
pub fn label_mark(meta: &JournalMeta) -> (label: Option<String>)
    ensures
        match label {
            Some(label) => mark_label(meta@) == Some(label@),
            None => mark_label(meta@) is None,
        },
{
    match meta.mark() {
        Some(mark) => Some(align_right(mark.to_two_places().as_str(), 5)),
        None => match meta.provisional_mark() {
            Some(mark) => {
                let mut label = align_right(mark.to_two_places().as_str(), 5);
                label.push('?');
                Some(label)
            },
            None => None,
        },
    }
}

/// Whether a submission passes the filter: the filter stands in the
/// student's id, or in the mark as the list shows it, or, whatever the case
/// of the letters, in the name or in the notes.
pub open spec fn entry_matches(tag: TagView, meta: MetaView, filter: Seq<char>) -> bool {
    ||| contains_text(tag.student_id, filter)
    ||| contains_text(uppercase(meta.name), uppercase(filter))
    ||| (mark_label(meta) matches Some(label) && contains_text(label, filter))
    ||| (meta.notes matches Some(notes) && contains_text(uppercase(notes), uppercase(filter)))
}

fn text_contains(haystack: &str, needle: &str) -> (found: bool)
    ensures
        found == contains_text(haystack@, needle@),
{
    contains_chars(chars_of(haystack).as_slice(), chars_of(needle).as_slice())
}

/// Whether the submission under `tag`, with summary `meta`, passes the
/// filter.
pub fn matches_filter(tag: &JournalTag, meta: &JournalMeta, filter: &str) -> (passes: bool)
    ensures
        passes == entry_matches(tag@, meta@, filter@),
{
    if text_contains(tag.student_id(), filter) {
        return true;
    }
    let loud = to_upper(filter);
    if text_contains(to_upper(meta.name()).as_str(), loud.as_str()) {
        return true;
    }
    let shown = match label_mark(meta) {
        Some(label) => text_contains(label.as_str(), filter),
        None => false,
    };
    if shown {
        return true;
    }
    match meta.notes() {
        Some(notes) => text_contains(to_upper(notes).as_str(), loud.as_str()),
        None => false,
    }
}

/// The tags among the first `upto` of the display order whose submissions
/// pass the filter, in display order.
pub open spec fn passing(
    tags: Seq<TagView>,
    journals: Seq<Journal>,
    filter: Seq<char>,
    upto: int,
) -> Seq<TagView>
    decreases upto,
{
    if upto <= 0 {
        Seq::empty()
    } else if entry_matches(tags[upto - 1], journals[upto - 1].spec_meta()@, filter) {
        passing(tags, journals, filter, upto - 1).push(tags[upto - 1])
    } else {
        passing(tags, journals, filter, upto - 1)
    }
}

/// The views of `tags`, in order.
pub open spec fn tag_views(tags: Seq<JournalTag>) -> Seq<TagView> {
    Seq::new(tags.len(), |i: int| tags[i]@)
}

/// The tags of the submissions that pass the filter, in display order.
pub fn filter_journals(journals: &Journals, filter: &str) -> (passed: Vec<JournalTag>)
    ensures
        tag_views(passed@) == passing(
            journals@.tags,
            journals@.journals,
            filter@,
            journals@.tags.len() as int,
        ),
{
    let mut passed: Vec<JournalTag> = Vec::new();
    let mut at: usize = 0;
    let count: usize = journals.len();
    assert(tag_views(passed@) =~= Seq::<TagView>::empty());
    while at < count
        invariant
            at <= count,
            count == journals@.tags.len(),
            tag_views(passed@) == passing(journals@.tags, journals@.journals, filter@, at as int),
        decreases count - at,
    {
        let ghost before = tag_views(passed@);
        let tag = journals.tag_at(at);
        if matches_filter(tag, journals.journal_at(at).meta(), filter) {
            passed.push(tag.clone());
            proof {
                assert(tag_views(passed@) =~= before.push(journals@.tags[at as int]));
            }
        }
        at = at + 1;
    }
    passed
}

} // verus!
