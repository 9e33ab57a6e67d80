//! The feedback that goes into a marking file with a mark: the lines that
//! justify the mark, a stamp that says who marked and when, and below them
//! whatever the file held before.

use vstd::prelude::*;
use vstd::string::StringExecFns;
use crate::amount::Mark;
use crate::choice::line_views;
use crate::journals::MarkJob;
use crate::text::{decimal, push_decimal};

verus! {

/// `chrono::Local::now`, formatted as date, time and microseconds. The
/// result is the clock's, so nothing is claimed of it. The call fails only
/// on a machine whose clock stands before 1970, or whose time zone data
/// give no offset for the present time.
#[verifier::external_body]
fn local_timestamp() -> (now: String) {
    chrono::Local::now().format("%F %T%.6f").to_string()
}

/// `lines`, each closed by a line break.
pub open spec fn joined(lines: Seq<Seq<char>>) -> Seq<char>
    decreases lines.len(),
{
    if lines.len() == 0 {
        Seq::empty()
    } else {
        joined(lines.drop_last()) + lines.last() + seq!['\n']
    }
}

/// The stamp: who marked, and when, on a line of its own with an empty line
/// below it.
pub open spec fn stamp(by: Seq<char>, at: Seq<char>) -> Seq<char> {
    "marked with flymark by "@ + by + " at "@ + at + seq!['\n', '\n']
}

/// The text of a marking file after a marking: the justification, then the
/// stamp, then what the file held before.
pub open spec fn feedback_text(
    lines: Seq<Seq<char>>,
    by: Seq<char>,
    at: Seq<char>,
    existing: Seq<char>,
) -> Seq<char> {
    joined(lines) + stamp(by, at) + existing
}

/// The text of a marking file after a marking by `by` at `at` that is
/// justified by `lines`, where the file held `existing` before.
pub fn feedback(lines: &Vec<String>, by: &str, at: &str, existing: &str) -> (text: String)
    ensures
        text@ == feedback_text(line_views(lines@), by@, at@, existing@),
{
    let ghost all = line_views(lines@);
    let mut text = String::new();
    let mut index: usize = 0;
    assert(all.take(0) =~= Seq::<Seq<char>>::empty());
    while index < lines.len()
        invariant
            index <= lines@.len(),
            all == line_views(lines@),
            text@ == joined(all.take(index as int)),
        decreases lines.len() - index,
    {
        proof {
            assert(all.take(index + 1).drop_last() =~= all.take(index as int));
            assert(all.take(index + 1).last() == lines@[index as int]@);
        }
        text.append(lines[index].as_str());
        text.push('\n');
        proof {
            assert(text@ =~= joined(all.take(index + 1)));
        }
        index = index + 1;
    }
    proof {
        assert(all.take(index as int) =~= all);
    }
    text.append("marked with flymark by ");
    text.append(by);
    text.append(" at ");
    text.append(at);
    text.push('\n');
    text.push('\n');
    text.append(existing);
    proof {
        assert(text@ =~= feedback_text(all, by@, at@, existing@));
    }
    text
}

/// What is written to the backend for one marking.
pub struct MarkPut {
    /// The id of the marking file that takes the mark.
    pub imark_id: usize,
    /// When the mark was given.
    pub at: String,
    /// Who gave it.
    pub by: String,
    /// The name of the marking file.
    pub name: String,
    /// Whether the mark is final. It always is.
    pub is_final: bool,
    pub mark: Mark,
    /// The new text of the marking file.
    pub text: String,
}

/// Whether `put` is what `job` writes at the time `put.at`, over a marking
/// file that held `existing`.
pub open spec fn is_put_of(put: MarkPut, job: MarkJob, existing: Seq<char>) -> bool {
    &&& put.imark_id == job.imark_id
    &&& put.by@ == job.auth@.0
    &&& put.name@ == job.mark_name@
    &&& put.is_final
    &&& put.mark == job.mark
    &&& put.text@ == feedback_text(line_views(job.lines@), job.auth@.0, put.at@, existing)
}

impl MarkPut {
    /// The key under which the backend files the mark: the id of the marking
    /// file, as a decimal numeral.
    pub fn key(&self) -> (key: String)
        ensures
            key@ == decimal(self.imark_id as nat),
    {
        let mut key = String::new();
        push_decimal(&mut key, self.imark_id as u128);
        assert(key@ =~= decimal(self.imark_id as nat));
        key
    }
}

impl MarkJob {
    /// What the job writes at the time `at`, over a marking file that holds
    /// `existing`.
    pub fn put_at(&self, existing: &str, at: String) -> (put: MarkPut)
        ensures
            put.at == at,
            is_put_of(put, *self, existing@),
    {
        let mut by = String::new();
        by.append(self.auth.username());
        assert(by@ =~= self.auth@.0);
        let mut name = String::new();
        name.append(self.mark_name.as_str());
        assert(name@ =~= self.mark_name@);
        let text = feedback(&self.lines, self.auth.username(), at.as_str(), existing);
        MarkPut { imark_id: self.imark_id, at, by, name, is_final: true, mark: self.mark, text }
    }

    /// What the job writes now, by the local clock, over a marking file that
    /// holds `existing`.
    pub fn put(&self, existing: &str) -> (put: MarkPut)
        ensures
            is_put_of(put, *self, existing@),
    {
        self.put_at(existing, local_timestamp())
    }
}

} // verus!
