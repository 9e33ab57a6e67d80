use flymark::amount::{Amount, Mark};
use flymark::choice::{Choice, ChoiceSelections, Choices};
use flymark::imark::{
    Authentication, Globals, Journal, JournalData, JournalFile, JournalMeta, JournalTag,
    LoadedJournal, Standing, UnloadedJournal,
};
use flymark::imark::mark_standing;
use flymark::journals::{
    submission_endpoint, BidirectionalIterator, Completion, Journals, LoadedSubmission, StoreError,
};
use flymark::task::TaskError;
use memfile::MemFile;

fn globals() -> Globals {
    Globals::new(
        "https://example.org/imark".to_string(),
        "less".to_string(),
        "performance".to_string(),
        Choices {
            choices: vec![
                Choice::Plus(Amount::from_units(5_000_000), "a".to_string()),
                Choice::Minus(Amount::from_units(2_000_000), "b".to_string()),
            ],
        },
        2,
        false,
        false,
    )
}

fn tag(student: &str) -> JournalTag {
    JournalTag::new("lab01".to_string(), "g1".to_string(), student.to_string())
}

fn meta(name: &str, provisional: Option<u128>, mark: Option<u128>) -> JournalMeta {
    JournalMeta::new(
        name.to_string(),
        provisional.map(|m| Mark::from_units(m * 1_000_000)),
        mark.map(|m| Mark::from_units(m * 1_000_000)),
        None,
    )
}

fn auth() -> Authentication {
    Authentication::new("z1234567".to_string(), "hunter2".to_string())
}

fn buffer() -> MemFile {
    MemFile::create_default("buffer").expect("an anonymous file")
}

fn file(id: usize, name: &str) -> JournalFile {
    JournalFile::new(id, name.to_string(), buffer())
}

fn fetched(student: &str, mark: Option<u128>) -> Completion {
    let data = JournalData::with_mark_file(
        vec![file(1, "main.c")],
        vec![file(4, "style")],
        "performance",
        buffer(),
    )
    .expect("ids are small");
    Completion::Loaded(LoadedSubmission {
        tag: tag(student),
        data,
        mark: mark.map(|m| Mark::from_units(m * 1_000_000)),
    })
}

fn order(journals: &Journals) -> Vec<String> {
    let mut iter = journals.iter();
    let mut seen = vec![];
    while let Some((tag, _)) = iter.next() {
        seen.push(tag.student_id().to_string());
    }
    seen
}

fn three() -> Journals {
    let mut journals = Journals::new(globals());
    assert!(journals.insert(tag("z1"), meta("Ann", Some(70), None)).is_ok());
    assert!(journals.insert(tag("z2"), meta("Bob", None, Some(90))).is_ok());
    assert!(journals.insert(tag("z3"), meta("Cy", None, None)).is_ok());
    journals
}

#[test]
fn marked_entity_is_yielded_before_provisional_one() {
    let mut journals = Journals::new(globals());
    assert!(journals.insert(tag("z1"), meta("Ann", Some(70), None)).is_ok());
    assert!(journals.insert(tag("z2"), meta("Bob", None, Some(90))).is_ok());
    let mut iter = journals.iter();
    let (first, journal) = iter.next().expect("two journals");
    assert_eq!(first, &tag("z2"));
    assert_eq!(journal.meta().mark(), Some(Mark::from_units(90_000_000)));
    let (second, _) = iter.next().expect("two journals");
    assert_eq!(second, &tag("z1"));
    assert!(iter.next().is_none());
}

#[test]
fn insert_keeps_display_order() {
    let mut journals = Journals::new(globals());
    for (student, name, provisional, mark) in [
        ("z1", "Zed", None, None),
        ("z2", "Amy", None, None),
        ("z3", "Kim", Some(50), None),
        ("z4", "Lee", Some(80), None),
        ("z5", "Moe", Some(10), Some(60)),
        ("z6", "Ned", None, Some(60)),
        ("z7", "Oli", None, Some(95)),
        ("z8", "Abe", Some(10), Some(60)),
    ] {
        assert!(journals.insert(tag(student), meta(name, provisional, mark)).is_ok());
        assert_eq!(journals.len(), order(&journals).len());
    }
    assert_eq!(order(&journals), vec!["z7", "z8", "z5", "z6", "z4", "z3", "z2", "z1"]);
    assert_eq!(journals.len(), 8);
}

#[test]
fn equal_summaries_keep_insertion_order() {
    let mut journals = Journals::new(globals());
    assert!(journals.insert(tag("z1"), meta("Sam", None, None)).is_ok());
    assert!(journals.insert(tag("z2"), meta("Sam", None, None)).is_ok());
    assert!(journals.insert(tag("z3"), meta("Sam", None, None)).is_ok());
    assert_eq!(order(&journals), vec!["z1", "z2", "z3"]);
}

#[test]
fn insert_rejects_a_duplicate_tag() {
    let mut journals = three();
    match journals.insert(tag("z2"), meta("Other", None, None)) {
        Err(StoreError::DuplicateJournal(refused)) => assert_eq!(refused, tag("z2")),
        _ => panic!("a duplicate tag must be refused"),
    }
    assert_eq!(journals.len(), 3);
    assert_eq!(order(&journals), vec!["z2", "z1", "z3"]);
    assert_eq!(journals.get(&tag("z2")).expect("known").meta().name(), "Bob");
}

#[test]
fn the_ordering_is_not_resorted_when_marks_change() {
    let mut journals = three();
    journals.settle(fetched("z3", Some(100)));
    assert_eq!(order(&journals), vec!["z2", "z1", "z3"]);
    assert_eq!(
        journals.get(&tag("z3")).expect("known").meta().mark(),
        Some(Mark::from_units(100_000_000))
    );
}

#[test]
fn get_and_try_get_find_inserted_tags_only() {
    let journals = three();
    assert!(journals.try_get(&tag("z1")).is_some());
    assert!(journals.get(&tag("z1")).is_some());
    assert!(journals.try_get(&tag("z9")).is_none());
    assert!(journals.get(&tag("z9")).is_none());
    assert!(!journals.get(&tag("z1")).expect("known").is_loaded());
    assert_eq!(journals.position(&tag("z1")), Some(1));
    assert_eq!(journals.position(&tag("z9")), None);
    assert_eq!(journals.tag_at(0), &tag("z2"));
    assert_eq!(journals.journal_at(2).meta().name(), "Cy");
    assert_eq!(journals.globals().mark_name(), "performance");
}

#[test]
fn queue_load_fails_for_an_unknown_tag() {
    let mut journals = three();
    match journals.queue_load(tag("z9"), "https://example.org/imark", auth(), "performance") {
        Err(StoreError::UnknownJournal(refused)) => assert_eq!(refused, tag("z9")),
        _ => panic!("an unknown tag must be refused"),
    }
    assert_eq!(journals.queue_size(), 0);
}

#[test]
fn queue_load_hands_out_the_job_and_queues_a_task() {
    let mut journals = three();
    let job = journals
        .queue_load(tag("z1"), "https://example.org/imark", auth(), "performance")
        .expect("known tag");
    assert_eq!(job.tag, tag("z1"));
    assert_eq!(
        job.endpoint,
        "https://example.org/imark/api/v1/assignments/lab01/submissions/g1/z1/"
    );
    assert_eq!(job.auth.username(), "z1234567");
    assert_eq!(job.auth.password(), "hunter2");
    assert_eq!(job.mark_name, "performance");
    assert!(!job.already_loaded);
    assert_eq!(journals.queue_size(), 1);
    assert_eq!(journals.scan_queue().ok(), Some(1));
    assert!(job.reply.send(Ok(fetched("z1", Some(55)))).is_ok());
    assert_eq!(journals.scan_queue().ok(), Some(0));
    let journal = journals.get(&tag("z1")).expect("known");
    assert!(journal.is_loaded());
    assert_eq!(journal.meta().mark(), Some(Mark::from_units(55_000_000)));
    assert_eq!(journal.meta().provisional_mark(), Some(Mark::from_units(70_000_000)));
    assert_eq!(journal.meta().name(), "Ann");
    let data = journal.data().expect("loaded");
    assert_eq!(data.submission_files().len(), 1);
    assert_eq!(data.marking_files().len(), 2);
}

#[test]
fn two_loads_of_one_tag_make_one_transition() {
    let mut journals = three();
    let first = journals
        .queue_load(tag("z1"), "e", auth(), "performance")
        .expect("known");
    let second = journals
        .queue_load(tag("z1"), "e", auth(), "performance")
        .expect("known");
    assert_eq!(journals.queue_size(), 2);
    assert!(first.reply.send(Ok(fetched("z1", Some(10)))).is_ok());
    assert!(second.reply.send(Ok(fetched("z1", Some(20)))).is_ok());
    assert_eq!(journals.scan_queue().ok(), Some(0));
    let journal = journals.get(&tag("z1")).expect("known");
    assert!(journal.is_loaded());
    assert_eq!(journal.meta().mark(), Some(Mark::from_units(10_000_000)));
    // a third request queues a task as well, whose job has nothing to fetch
    let third = journals
        .queue_load(tag("z1"), "e", auth(), "performance")
        .expect("known");
    assert!(third.already_loaded);
    assert_eq!(journals.queue_size(), 1);
    assert!(third.reply.send(Ok(Completion::AlreadyLoaded)).is_ok());
    assert_eq!(journals.scan_queue().ok(), Some(0));
    assert_eq!(
        journals.get(&tag("z1")).expect("known").meta().mark(),
        Some(Mark::from_units(10_000_000))
    );
}

#[test]
fn scan_queue_counts_what_is_outstanding() {
    let mut journals = three();
    assert_eq!(journals.scan_queue().ok(), Some(0));
    let a = journals.queue_load(tag("z1"), "e", auth(), "m").expect("known");
    let b = journals.queue_load(tag("z2"), "e", auth(), "m").expect("known");
    let c = journals.queue_load(tag("z3"), "e", auth(), "m").expect("known");
    assert_eq!(journals.scan_queue().ok(), Some(3));
    assert!(b.reply.send(Ok(fetched("z2", None))).is_ok());
    assert_eq!(journals.scan_queue().ok(), Some(2));
    assert!(journals.get(&tag("z2")).expect("known").is_loaded());
    assert!(!journals.get(&tag("z1")).expect("known").is_loaded());
    assert!(a.reply.send(Ok(Completion::Marked)).is_ok());
    assert!(c.reply.send(Ok(fetched("z3", None))).is_ok());
    assert_eq!(journals.scan_queue().ok(), Some(0));
    assert_eq!(journals.queue_size(), 0);
    assert!(!journals.get(&tag("z1")).expect("known").is_loaded());
    assert!(journals.get(&tag("z3")).expect("known").is_loaded());
}

#[test]
fn scan_queue_stops_at_the_first_failure_and_clears_its_slot() {
    let mut journals = three();
    let a = journals.queue_load(tag("z1"), "e", auth(), "m").expect("known");
    let b = journals.queue_load(tag("z2"), "e", auth(), "m").expect("known");
    let c = journals.queue_load(tag("z3"), "e", auth(), "m").expect("known");
    assert!(a.reply.send(Ok(fetched("z1", None))).is_ok());
    assert!(b.reply.send(Err(anyhow::Error::msg("timed out"))).is_ok());
    assert!(c.reply.send(Ok(fetched("z3", None))).is_ok());
    match journals.scan_queue() {
        Err(TaskError::Failed(failure)) => assert_eq!(failure.to_string(), "timed out"),
        _ => panic!("the failure must surface"),
    }
    // the finished first task and the failed one are gone, the third waits
    assert_eq!(journals.queue_size(), 1);
    assert!(journals.get(&tag("z1")).expect("known").is_loaded());
    assert!(!journals.get(&tag("z3")).expect("known").is_loaded());
    assert_eq!(journals.scan_queue().ok(), Some(0));
    assert!(journals.get(&tag("z3")).expect("known").is_loaded());
}

#[test]
fn scan_queue_reports_a_vanished_worker() {
    let mut journals = three();
    let job = journals.queue_load(tag("z1"), "e", auth(), "m").expect("known");
    drop(job);
    assert!(matches!(journals.scan_queue(), Err(TaskError::Disconnected)));
    assert_eq!(journals.queue_size(), 0);
}

#[test]
fn unload_keeps_the_summary_and_a_new_load_brings_new_files() {
    let mut journals = three();
    journals.settle(fetched("z1", Some(40)));
    assert!(journals.get(&tag("z1")).expect("known").is_loaded());
    journals.unload(&tag("z1"));
    let journal = journals.get(&tag("z1")).expect("known");
    assert!(!journal.is_loaded());
    assert!(journal.data().is_none());
    assert_eq!(journal.meta().name(), "Ann");
    assert_eq!(journal.meta().mark(), Some(Mark::from_units(40_000_000)));
    assert_eq!(journal.meta().provisional_mark(), Some(Mark::from_units(70_000_000)));
    let job = journals
        .queue_load(tag("z1"), "e", auth(), "performance")
        .expect("known");
    let data = JournalData::new(vec![file(7, "fresh.c"), file(8, "more.c")], vec![file(9, "performance")]);
    assert!(job
        .reply
        .send(Ok(Completion::Loaded(LoadedSubmission { tag: tag("z1"), data, mark: None })))
        .is_ok());
    assert_eq!(journals.scan_queue().ok(), Some(0));
    let journal = journals.get(&tag("z1")).expect("known");
    let data = journal.data().expect("loaded");
    assert_eq!(data.submission_files().len(), 2);
    assert_eq!(data.submission_files()[0].file_name(), "fresh.c");
    assert_eq!(data.submission_files()[0].imark_id(), 7);
    assert_eq!(journal.meta().mark(), None);
}

#[test]
fn unload_of_unknown_or_unloaded_changes_nothing() {
    let mut journals = three();
    journals.unload(&tag("z9"));
    journals.unload(&tag("z1"));
    assert_eq!(journals.len(), 3);
    assert!(!journals.get(&tag("z1")).expect("known").is_loaded());
    assert_eq!(journals.get(&tag("z1")).expect("known").meta().name(), "Ann");
}

#[test]
fn settle_ignores_unknown_tags_and_finished_markings() {
    let mut journals = three();
    journals.settle(fetched("z9", None));
    journals.settle(Completion::Marked);
    assert_eq!(journals.len(), 3);
    assert!(order(&journals).iter().all(|s| !journals.get(&tag(s)).expect("known").is_loaded()));
}

fn selected() -> ChoiceSelections {
    let mut choices = ChoiceSelections::new(globals().choices());
    choices.toggle_selection();
    choices.cursor_next();
    choices.toggle_selection();
    choices
}

#[test]
fn queue_mark_hands_out_mark_and_justification() {
    let mut journals = three();
    journals.settle(fetched("z1", None));
    let job = journals
        .queue_mark(tag("z1"), selected(), "https://example.org/imark", auth(), "performance")
        .expect("loaded, with a mark file");
    assert_eq!(job.tag, tag("z1"));
    assert_eq!(
        job.endpoint,
        "https://example.org/imark/api/v1/assignments/lab01/submissions/g1/z1/"
    );
    assert_eq!(job.imark_id, 5);
    assert_eq!(job.mark_name, "performance");
    assert_eq!(job.mark, Mark::from_units(3_000_000));
    assert_eq!(job.lines, vec!["+5 a".to_string(), "-2 b".to_string()]);
    assert_eq!(job.auth.username(), "z1234567");
    assert_eq!(journals.queue_size(), 1);
    assert!(job.reply.send(Ok(Completion::Marked)).is_ok());
    assert_eq!(journals.scan_queue().ok(), Some(0));
}

#[test]
fn queue_mark_errors() {
    let mut journals = three();
    assert!(matches!(
        journals.queue_mark(tag("z9"), selected(), "e", auth(), "performance"),
        Err(StoreError::UnknownJournal(_))
    ));
    assert!(matches!(
        journals.queue_mark(tag("z1"), selected(), "e", auth(), "performance"),
        Err(StoreError::NotLoaded(_))
    ));
    journals.settle(fetched("z1", None));
    assert!(matches!(
        journals.queue_mark(tag("z1"), selected(), "e", auth(), "correctness"),
        Err(StoreError::NoMarkFile(_))
    ));
    assert_eq!(journals.queue_size(), 0);
}

#[test]
fn the_cursor_steps_both_ways() {
    let journals = three();
    let mut iter = journals.iter();
    assert!(iter.next_back().is_none());
    assert_eq!(iter.next().expect("first").0, &tag("z2"));
    assert_eq!(iter.next().expect("second").0, &tag("z1"));
    // a step back yields what was just passed
    assert_eq!(iter.next_back().expect("second again").0, &tag("z1"));
    assert_eq!(iter.next_back().expect("first again").0, &tag("z2"));
    assert!(iter.next_back().is_none());
    assert_eq!(iter.next().expect("first").0, &tag("z2"));
    assert_eq!(iter.next().expect("second").0, &tag("z1"));
    assert_eq!(iter.next().expect("third").0, &tag("z3"));
    assert!(iter.next().is_none());
    assert!(iter.next().is_none());
    assert_eq!(iter.next_back().expect("third again").0, &tag("z3"));
    // each call of iter starts afresh
    assert_eq!(journals.iter().next().expect("first").0, &tag("z2"));
}

#[test]
fn with_mark_file_adds_the_missing_file_one_above_the_highest_id() {
    let data = JournalData::with_mark_file(
        vec![file(1, "main.c")],
        vec![file(12, "style"), file(3, "tests")],
        "performance",
        buffer(),
    )
    .expect("ids are small");
    assert_eq!(data.marking_files().len(), 3);
    assert_eq!(data.marking_files()[2].file_name(), "performance");
    assert_eq!(data.marking_files()[2].imark_id(), 13);
    assert_eq!(data.mark_file("performance").expect("added").imark_id(), 13);
    assert!(data.mark_file("nothing").is_none());
    assert_eq!(data.submission_files().len(), 1);
}

#[test]
fn with_mark_file_keeps_a_file_that_is_there() {
    let data = JournalData::with_mark_file(
        vec![],
        vec![file(12, "style"), file(3, "performance"), file(4, "performance")],
        "performance",
        buffer(),
    )
    .expect("nothing to add");
    assert_eq!(data.marking_files().len(), 3);
    assert_eq!(data.mark_file("performance").expect("there").imark_id(), 3);
}

#[test]
fn with_mark_file_starts_at_one_and_fails_past_the_highest_number() {
    let data = JournalData::with_mark_file(vec![], vec![], "performance", buffer()).expect("id 1");
    assert_eq!(data.marking_files()[0].imark_id(), 1);
    assert!(JournalData::with_mark_file(vec![], vec![file(usize::MAX, "style")], "performance", buffer()).is_none());
    assert!(JournalData::with_mark_file(vec![], vec![file(usize::MAX, "performance")], "performance", buffer()).is_some());
}

#[test]
fn summaries_compare_by_mark_then_provisional_mark_then_name() {
    let marked_high = meta("Zed", None, Some(90));
    let marked_low = meta("Amy", Some(99), Some(60));
    let provisional = meta("Amy", Some(70), None);
    let bare_a = meta("Amy", None, None);
    let bare_b = meta("Bob", None, None);
    assert!(marked_high.precedes(&marked_low));
    assert!(!marked_low.precedes(&marked_high));
    assert!(marked_low.precedes(&provisional));
    assert!(provisional.precedes(&bare_a));
    assert!(bare_a.precedes(&bare_b));
    assert!(!bare_b.precedes(&bare_a));
    assert!(!bare_a.precedes(&bare_a));
    assert!(meta("Amy", Some(5), Some(60)).precedes(&meta("Amy", None, Some(60))));
    assert!(meta("Amy", Some(9), Some(60)).precedes(&meta("Amy", Some(5), Some(60))));
    assert!(meta("Am", None, None).precedes(&meta("Amy", None, None)));
    assert!(meta("Zoë", None, None).precedes(&meta("Zoƒ", None, None)));
}

#[test]
fn summaries_compare_with_the_operators() {
    let marked = meta("Zed", None, Some(90));
    let bare = meta("Amy", None, None);
    assert!(marked < bare);
    assert!(bare > marked);
    assert!(!(bare < bare));
    assert!(bare <= bare);
    assert_eq!(marked.partial_cmp(&bare), Some(std::cmp::Ordering::Less));
    assert_eq!(bare.partial_cmp(&marked), Some(std::cmp::Ordering::Greater));
    assert_eq!(bare.partial_cmp(&meta("Amy", None, None)), Some(std::cmp::Ordering::Equal));
}

#[test]
fn summaries_are_equal_by_name_and_marks() {
    let with_notes = JournalMeta::new("Amy".to_string(), None, Some(Mark::from_units(1)), Some("late".to_string()));
    let without = JournalMeta::new("Amy".to_string(), None, Some(Mark::from_units(1)), None);
    assert!(with_notes == without);
    assert!(with_notes != meta("Amy", None, None));
    assert!(with_notes != JournalMeta::new("Bob".to_string(), None, Some(Mark::from_units(1)), None));
    assert_eq!(with_notes.notes(), Some("late"));
    assert_eq!(without.notes(), None);
    assert_eq!(with_notes.clone().notes(), Some("late"));
    let mut changed = without.clone();
    changed.set_mark(None);
    assert_eq!(changed.mark(), None);
    assert_eq!(JournalMeta::default().name(), "");
}

#[test]
fn mark_standing_orders_higher_marks_first_and_none_last() {
    let m = |units: u128| Some(Mark::from_units(units));
    assert_eq!(mark_standing(m(2), m(1)), Standing::Before);
    assert_eq!(mark_standing(m(1), m(2)), Standing::After);
    assert_eq!(mark_standing(m(1), m(1)), Standing::Level);
    assert_eq!(mark_standing(m(0), None), Standing::Before);
    assert_eq!(mark_standing(None, m(0)), Standing::After);
    assert_eq!(mark_standing(None, None), Standing::Level);
}

#[test]
fn tags_and_settings_give_back_what_they_were_made_with() {
    let tag = JournalTag::new("ass1".to_string(), "tue09".to_string(), "z7654321".to_string());
    assert_eq!(tag.assignment(), "ass1");
    assert_eq!(tag.group_id(), "tue09");
    assert_eq!(tag.student_id(), "z7654321");
    assert_eq!(tag.clone(), tag);
    assert!(tag != JournalTag::new("ass1".to_string(), "tue09".to_string(), "z0".to_string()));
    let globals = globals();
    assert_eq!(globals.cgi_endpoint(), "https://example.org/imark");
    assert_eq!(globals.pager_command(), "less");
    assert_eq!(globals.mark_name(), "performance");
    assert_eq!(globals.choices().choices.len(), 2);
    assert_eq!(globals.preload(), 2);
    assert!(!globals.panic_on_drop());
    assert!(!globals.hide_names());
    let copy = globals.clone();
    assert_eq!(copy.mark_name(), "performance");
    assert_eq!(copy.choices().choices.len(), 2);
    assert_eq!(Globals::default().preload(), 0);
    let auth = auth();
    assert_eq!(auth.clone().username(), "z1234567");
    assert_eq!(submission_endpoint("x", &tag), "x/api/v1/assignments/ass1/submissions/tue09/z7654321/");
}

#[test]
fn journals_change_phase_through_their_accessors() {
    let mut journal = Journal::Unloaded(UnloadedJournal::new(meta("Amy", None, None)));
    assert!(!journal.is_loaded());
    assert!(journal.data().is_none());
    assert!(journal.data_mut().is_none());
    journal.meta_mut().set_mark(Some(Mark::from_units(5)));
    assert_eq!(journal.meta().mark(), Some(Mark::from_units(5)));
    let loaded = LoadedJournal::new(meta("Bob", None, None), JournalData::new(vec![], vec![file(1, "m")]));
    assert_eq!(loaded.meta().name(), "Bob");
    assert_eq!(loaded.data().marking_files().len(), 1);
    let mut journal = Journal::Loaded(loaded);
    assert!(journal.is_loaded());
    assert_eq!(journal.data_mut().expect("loaded").marking_files()[0].file_name(), "m");
    assert!(journal.data().expect("loaded").marking_files()[0].file_data().metadata().is_ok());
    assert_eq!(UnloadedJournal::new(meta("Cy", None, None)).meta().name(), "Cy");
}

#[test]
fn abandoning_the_store_is_fatal_only_while_a_mark_is_under_way() {
    let mut journals = three();
    assert!(!journals.abandoning(false));
    let load = journals.queue_load(tag("z2"), "e", auth(), "performance").expect("known");
    // a load may be abandoned
    assert!(!journals.abandoning(false));
    journals.settle(fetched("z1", None));
    let mark = journals
        .queue_mark(tag("z1"), selected(), "e", auth(), "performance")
        .expect("loaded, with a mark file");
    assert!(journals.abandoning(false));
    assert!(!journals.abandoning(true));
    assert_eq!(journals.queue_size(), 2);
    assert!(mark.reply.send(Ok(Completion::Marked)).is_ok());
    // the mark is written: nothing is under way any more, and the report,
    // which no poll has taken yet, is kept for the next scan
    assert!(!journals.abandoning(false));
    assert!(load.reply.send(Ok(fetched("z2", Some(12)))).is_ok());
    assert_eq!(journals.scan_queue().ok(), Some(0));
    assert!(journals.get(&tag("z2")).expect("known").is_loaded());
    assert!(!journals.abandoning(false));
}

#[test]
fn abandoning_the_store_is_not_fatal_once_the_marking_is_gone() {
    let mut journals = three();
    journals.settle(fetched("z1", None));
    let mark = journals
        .queue_mark(tag("z1"), selected(), "e", auth(), "performance")
        .expect("loaded, with a mark file");
    assert!(journals.abandoning(false));
    drop(mark);
    assert!(!journals.abandoning(false));
    assert_eq!(journals.queue_size(), 1);
    assert!(matches!(journals.scan_queue(), Err(TaskError::Disconnected)));
    assert_eq!(journals.queue_size(), 0);
}

#[test]
fn queue_load_queues_a_task_for_every_known_tag() {
    let mut journals = three();
    journals.settle(fetched("z2", None));
    let size = journals.queue_size();
    let len = journals.len();
    let loaded = journals.queue_load(tag("z2"), "e", auth(), "performance").expect("known");
    assert!(loaded.already_loaded);
    assert_eq!(journals.queue_size(), size + 1);
    let unloaded = journals.queue_load(tag("z1"), "e", auth(), "performance").expect("known");
    assert!(!unloaded.already_loaded);
    assert_eq!(journals.queue_size(), size + 2);
    assert!(journals.queue_load(tag("z9"), "e", auth(), "performance").is_err());
    assert_eq!(journals.queue_size(), size + 2);
    assert_eq!(journals.len(), len);
    assert_eq!(order(&journals), vec!["z2", "z1", "z3"]);
    assert!(journals.get(&tag("z2")).expect("known").is_loaded());
    assert!(!journals.get(&tag("z1")).expect("known").is_loaded());
}

#[test]
fn take_in_leaves_a_task_that_is_not_done() {
    let mut journals = three();
    let _first = journals.queue_load(tag("z1"), "e", auth(), "m").expect("known");
    let _second = journals.queue_load(tag("z2"), "e", auth(), "m").expect("known");
    assert!(journals.take_in(1, Ok(None)).is_none());
    assert_eq!(journals.queue_size(), 2);
    assert!(!journals.get(&tag("z2")).expect("known").is_loaded());
}

#[test]
fn take_in_takes_a_finished_task_out_and_its_report_in() {
    let mut journals = three();
    let _first = journals.queue_load(tag("z1"), "e", auth(), "m").expect("known");
    let _second = journals.queue_load(tag("z2"), "e", auth(), "m").expect("known");
    assert!(journals.take_in(0, Ok(Some(fetched("z3", Some(8))))).is_none());
    assert_eq!(journals.queue_size(), 1);
    assert!(journals.get(&tag("z3")).expect("known").is_loaded());
    assert!(journals.take_in(0, Ok(Some(Completion::AlreadyLoaded))).is_none());
    assert_eq!(journals.queue_size(), 0);
    assert_eq!(journals.len(), 3);
}

#[test]
fn take_in_clears_the_slot_of_a_failed_task_and_hands_its_failure_on() {
    let mut journals = three();
    let _first = journals.queue_load(tag("z1"), "e", auth(), "m").expect("known");
    let second = journals.queue_load(tag("z2"), "e", auth(), "m").expect("known");
    match journals.take_in(0, Err(TaskError::Failed(anyhow::Error::msg("boom")))) {
        Some(TaskError::Failed(failure)) => assert_eq!(failure.to_string(), "boom"),
        _ => panic!("the failure is handed on"),
    }
    assert_eq!(journals.queue_size(), 1);
    assert!(order(&journals).iter().all(|s| !journals.get(&tag(s)).expect("known").is_loaded()));
    // the task that stayed is the second one
    assert!(second.reply.send(Ok(fetched("z2", None))).is_ok());
    assert_eq!(journals.scan_queue().ok(), Some(0));
    assert!(journals.get(&tag("z2")).expect("known").is_loaded());
    let _third = journals.queue_load(tag("z3"), "e", auth(), "m").expect("known");
    assert!(matches!(
        journals.take_in(0, Err(TaskError::Disconnected)),
        Some(TaskError::Disconnected)
    ));
    assert_eq!(journals.queue_size(), 0);
}

#[test]
fn a_scan_keeps_the_unfinished_tasks_in_their_order() {
    let mut journals = three();
    let a = journals.queue_load(tag("z1"), "e", auth(), "m").expect("known");
    let b = journals.queue_load(tag("z2"), "e", auth(), "m").expect("known");
    let c = journals.queue_load(tag("z3"), "e", auth(), "m").expect("known");
    let d = journals.queue_load(tag("z1"), "e", auth(), "m").expect("known");
    assert!(b.reply.send(Ok(Completion::AlreadyLoaded)).is_ok());
    assert!(d.reply.send(Ok(Completion::Marked)).is_ok());
    assert_eq!(journals.scan_queue().ok(), Some(2));
    // what is left are the first and the third task, in this order
    assert!(a.reply.send(Err(anyhow::Error::msg("first"))).is_ok());
    assert!(c.reply.send(Err(anyhow::Error::msg("third"))).is_ok());
    match journals.scan_queue() {
        Err(TaskError::Failed(failure)) => assert_eq!(failure.to_string(), "first"),
        _ => panic!("the first failure wins"),
    }
    assert_eq!(journals.queue_size(), 1);
    match journals.scan_queue() {
        Err(TaskError::Failed(failure)) => assert_eq!(failure.to_string(), "third"),
        _ => panic!("the task behind the failure was left for this scan"),
    }
    assert_eq!(journals.scan_queue().ok(), Some(0));
}

#[test]
fn a_scan_fails_on_a_task_whose_channel_was_seen_closed() {
    let mut journals = three();
    journals.settle(fetched("z1", None));
    let mark = journals
        .queue_mark(tag("z1"), selected(), "e", auth(), "performance")
        .expect("loaded, with a mark file");
    let load = journals.queue_load(tag("z2"), "e", auth(), "m").expect("known");
    drop(mark);
    assert!(!journals.abandoning(false));
    assert!(load.reply.send(Ok(fetched("z2", None))).is_ok());
    assert!(matches!(journals.scan_queue(), Err(TaskError::Disconnected)));
    assert_eq!(journals.queue_size(), 1);
    assert!(!journals.get(&tag("z2")).expect("known").is_loaded());
    assert_eq!(journals.scan_queue().ok(), Some(0));
    assert!(journals.get(&tag("z2")).expect("known").is_loaded());
}

#[test]
fn tags_are_ordered_by_assignment_then_group_then_student() {
    let t = |a: &str, g: &str, s: &str| JournalTag::new(a.to_string(), g.to_string(), s.to_string());
    let a = t("a1", "g1", "s9");
    let b = t("a1", "g2", "s1");
    let c = t("a1", "g1", "s9");
    assert!(a < b);
    assert!(b > a);
    assert!(a.precedes(&b));
    assert!(!b.precedes(&a));
    assert!(a == c);
    assert!(!(a < c) && !(c < a));
    assert!(a <= c && a >= c);
    assert_eq!(a.partial_cmp(&c), Some(std::cmp::Ordering::Equal));
    assert_eq!(a.partial_cmp(&b), Some(std::cmp::Ordering::Less));
    assert_eq!(b.partial_cmp(&a), Some(std::cmp::Ordering::Greater));
    // the assignment decides before the group, the group before the student
    assert!(t("a1", "g9", "s9") < t("a2", "g1", "s1"));
    assert!(t("a1", "g1", "s1") < t("a1", "g1", "s2"));
    assert!(t("a", "z", "z") < t("ab", "", ""));
    assert!(t("", "", "") < t("", "", "a"));
    // the order that the operators use is the order that sorting uses
    let mut tags = vec![t("b", "g", "s"), b.clone(), t("a1", "g1", "s10"), a.clone(), t("a1", "g1", "s")];
    tags.sort();
    for pair in tags.windows(2) {
        assert!(pair[0] < pair[1]);
        assert_eq!(pair[0].cmp(&pair[1]), std::cmp::Ordering::Less);
    }
    assert_eq!(tags[0], t("a1", "g1", "s"));
    assert_eq!(tags[4], t("b", "g", "s"));
}

#[test]
fn equal_tags_hash_equally_and_find_the_same_journal() {
    let a = JournalTag::new("a1".to_string(), "g1".to_string(), "s9".to_string());
    let c = JournalTag::new("a1".to_string(), "g1".to_string(), "s9".to_string());
    let mut seen = std::collections::HashSet::new();
    seen.insert(a.clone());
    assert!(seen.contains(&c));
    let mut journals = Journals::new(globals());
    assert!(journals.insert(a, meta("Ann", None, None)).is_ok());
    assert_eq!(journals.get(&c).expect("found under an equal tag").meta().name(), "Ann");
    assert!(matches!(journals.insert(c, meta("Bob", None, None)), Err(StoreError::DuplicateJournal(_))));
}
