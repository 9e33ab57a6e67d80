use flymark::amount::Mark;
use flymark::auth::{AuthTaskOutput, AuthenticateTask, BasicAuth, JournalLoadApp};
use flymark::exposure::{link_target, links, viewer_command, viewer_request, TmuxPane, ViewerRequest};
use flymark::feedback::feedback;
use flymark::imark::{Authentication, Globals, JournalData, JournalFile, JournalMeta, JournalTag};
use flymark::journals::{Completion, Journals, LoadedSubmission};
use flymark::choice::{Choice, ChoiceSelections, Choices};
use flymark::amount::Amount;
use flymark::listing::{list_journals, ListingError};
use flymark::marking::{AppMarking, Opened};
use memfile::MemFile;

fn buffer() -> MemFile {
    MemFile::create_default("buffer").expect("an anonymous file")
}

fn data() -> JournalData {
    JournalData::new(
        vec![
            JournalFile::new(1, "main.c".to_string(), buffer()),
            JournalFile::new(2, "util.h".to_string(), buffer()),
        ],
        vec![JournalFile::new(3, "performance".to_string(), buffer())],
    )
}

#[test]
fn link_targets_name_the_descriptor_of_the_process() {
    assert_eq!(link_target(4242, 7), "/proc/4242/fd/7");
    assert_eq!(link_target(0, 0), "/proc/0/fd/0");
    assert_eq!(link_target(u32::MAX, i32::MAX), "/proc/4294967295/fd/2147483647");
    assert_eq!(link_target(1, -1), "/proc/1/fd/-1");
    assert_eq!(link_target(1, i32::MIN), "/proc/1/fd/-2147483648");
}

#[test]
fn one_link_for_each_file_submission_files_first() {
    let plan = links(&data(), 99, &vec![10, 11, 12]).expect("three files, three descriptors");
    let seen: Vec<(String, String)> = plan.into_iter().map(|l| (l.name, l.target)).collect();
    assert_eq!(
        seen,
        vec![
            ("main.c".to_string(), "/proc/99/fd/10".to_string()),
            ("util.h".to_string(), "/proc/99/fd/11".to_string()),
            ("performance".to_string(), "/proc/99/fd/12".to_string()),
        ]
    );
}

#[test]
fn no_plan_without_one_descriptor_for_each_file() {
    assert!(links(&data(), 99, &vec![10, 11]).is_none());
    assert!(links(&data(), 99, &vec![10, 11, 12, 13]).is_none());
    assert!(links(&data(), 99, &vec![]).is_none());
    assert_eq!(links(&JournalData::new(vec![], vec![]), 99, &vec![]).expect("nothing to link").len(), 0);
}

#[test]
fn the_viewer_command_names_every_file() {
    assert_eq!(viewer_command("bat --paging=always", &data()), "bat --paging=always main.c util.h performance");
    assert_eq!(viewer_command("less", &JournalData::new(vec![], vec![])), "less");
}

#[test]
fn the_viewer_is_respawned_where_a_pane_exists() {
    match viewer_request(&None, "less a".to_string()) {
        ViewerRequest::Spawn { command } => assert_eq!(command, "less a"),
        _ => panic!("without a pane the viewer is spawned"),
    }
    match viewer_request(&Some(TmuxPane::new("%12".to_string())), "less b".to_string()) {
        ViewerRequest::Respawn { pane_id, command } => {
            assert_eq!(pane_id, "%12");
            assert_eq!(command, "less b");
        }
        _ => panic!("with a pane the viewer is respawned"),
    }
}

#[test]
fn feedback_puts_justification_and_stamp_above_the_old_text() {
    let lines = vec!["+5 a".to_string(), "-2 b".to_string()];
    assert_eq!(
        feedback(&lines, "z1234567", "2024-03-01 10:00:00.000001", "earlier remarks\n"),
        "+5 a\n-2 b\nmarked with flymark by z1234567 at 2024-03-01 10:00:00.000001\n\nearlier remarks\n"
    );
    assert_eq!(feedback(&vec![], "me", "now", ""), "marked with flymark by me at now\n\n");
}

fn mark_job() -> flymark::journals::MarkJob {
    let globals = Globals::new(
        "https://e".to_string(),
        "less".to_string(),
        "performance".to_string(),
        Choices { choices: vec![Choice::Plus(Amount::from_units(1_250_000), "neat".to_string())] },
        0,
        false,
        false,
    );
    let mut journals = Journals::new(globals.clone());
    let tag = JournalTag::new("lab01".to_string(), "g".to_string(), "z1".to_string());
    assert!(journals.insert(tag.clone(), JournalMeta::new("Ann".to_string(), None, None, None)).is_ok());
    journals.settle(Completion::Loaded(LoadedSubmission { tag: tag.clone(), data: data(), mark: None }));
    let mut choices = ChoiceSelections::new(globals.choices());
    choices.toggle_selection();
    let auth = Authentication::new("z7".to_string(), "pw".to_string());
    journals.queue_mark(tag, choices, "https://e", auth, "performance").ok().expect("markable")
}

#[test]
fn a_mark_job_writes_mark_text_and_key() {
    let job = mark_job();
    let put = job.put_at("old\n", "2024-03-01 10:00:00.000000".to_string());
    assert_eq!(put.imark_id, 3);
    assert_eq!(put.key(), "3");
    assert_eq!(put.at, "2024-03-01 10:00:00.000000");
    assert_eq!(put.by, "z7");
    assert_eq!(put.name, "performance");
    assert!(put.is_final);
    assert_eq!(put.mark, Mark::from_units(1_250_000));
    assert_eq!(put.text, "+1.25 neat\nmarked with flymark by z7 at 2024-03-01 10:00:00.000000\n\nold\n");
}

#[test]
fn a_mark_job_stamps_with_the_local_clock() {
    let job = mark_job();
    let put = job.put("old");
    // date, time and six digits of microseconds
    assert_eq!(put.at.len(), 26);
    assert_eq!(&put.at[4..5], "-");
    assert_eq!(&put.at[10..11], " ");
    assert_eq!(&put.at[19..20], ".");
    assert_eq!(put.text, format!("+1.25 neat\nmarked with flymark by z7 at {}\n\nold", put.at));
}

#[test]
fn listing_orders_the_reported_submissions() {
    let tag = |s: &str| JournalTag::new("lab01".to_string(), "g".to_string(), s.to_string());
    let meta = |n: &str, m: Option<u128>| JournalMeta::new(n.to_string(), None, m.map(Mark::from_units), None);
    let reported = vec![
        (tag("z1"), meta("Ann", None)),
        (tag("z2"), meta("Bob", Some(50))),
        (tag("z3"), meta("Cy", Some(80))),
    ];
    let output = list_journals(Globals::default(), "lab01".to_string(), &reported).ok().expect("three journals");
    assert_eq!(output.assignment, "lab01");
    assert_eq!(output.journals.len(), 3);
    assert_eq!(output.journals.tag_at(0), &tag("z3"));
    assert_eq!(output.journals.tag_at(1), &tag("z2"));
    assert_eq!(output.journals.tag_at(2), &tag("z1"));
    assert!(!output.journals.journal_at(0).is_loaded());
    assert_eq!(output.journals.journal_at(0).meta().name(), "Cy");
    assert_eq!(output.journals.queue_size(), 0);
}

#[test]
fn listing_refuses_an_empty_or_repeating_report() {
    let tag = |s: &str| JournalTag::new("lab01".to_string(), "g".to_string(), s.to_string());
    let meta = || JournalMeta::new("Ann".to_string(), None, None, None);
    assert!(matches!(
        list_journals(Globals::default(), "lab01".to_string(), &vec![]),
        Err(ListingError::NoJournals)
    ));
    let reported = vec![(tag("z1"), meta()), (tag("z2"), meta()), (tag("z1"), meta()), (tag("z2"), meta())];
    match list_journals(Globals::default(), "lab01".to_string(), &reported) {
        Err(ListingError::Duplicate(refused)) => assert_eq!(refused, tag("z1")),
        _ => panic!("a repeated submission must be refused"),
    }
}

#[test]
fn signing_in_asks_for_the_assignments() {
    let task = AuthenticateTask::new("https://cgi.example.org/imark".to_string(), "z1".to_string(), "pw".to_string());
    assert_eq!(task.endpoint(), "https://cgi.example.org/imark/api/v1/assignments/");
    let auth = task.credentials();
    assert_eq!(auth.username(), "z1");
    assert_eq!(auth.password(), "pw");
    assert_eq!(auth.clone().username(), "z1");
    let auth = BasicAuth::new("z2".to_string(), "secret".to_string()).into_authentication();
    assert_eq!(auth.username(), "z2");
    assert_eq!(auth.password(), "secret");
    let output = AuthTaskOutput { assignments: vec!["lab01".to_string()] };
    assert_eq!(output.assignments.len(), 1);
}

#[test]
fn a_load_knows_the_backend_and_the_operator() {
    let load = JournalLoadApp::new("https://e".to_string(), Authentication::new("z3".to_string(), "pw".to_string()));
    assert_eq!(load.cgi_endpoint(), "https://e");
    assert_eq!(load.auth().username(), "z3");
    let globals = Globals::new("https://f".to_string(), "less".to_string(), "m".to_string(), Choices::default(), 0, false, false);
    let mut journals = Journals::new(globals.clone());
    let tag = JournalTag::new("a".to_string(), "g".to_string(), "s".to_string());
    assert!(journals.insert(tag.clone(), JournalMeta::default()).is_ok());
    let app = AppMarking::new(globals, Authentication::new("z4".to_string(), "pw".to_string()), "a".to_string(), journals, tag, Opened::Manually, None);
    let load = JournalLoadApp::from_marking(&app);
    assert_eq!(load.cgi_endpoint(), "https://f");
    assert_eq!(load.auth().username(), "z4");
}
