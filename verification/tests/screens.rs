use flymark::amount::Mark;
use flymark::auth::{AuthTaskOutput, JournalLoadApp};
use flymark::config::{get_cgi_endpoint, locate_pager, wrap_next, wrap_prev, PagersFound};
use flymark::imark::{Authentication, Globals, JournalMeta, JournalTag};
use flymark::journals::{Completion, Journals};
use flymark::choice::Choices;
use flymark::listing::list_journals;
use flymark::marking::{AppMarkingState, MarkingKey, Opened};
use flymark::screens::{AppJournalList, AppPostAuth, AppPostAuthState, AppPreAuth, AppPreAuthState};
use flymark::task::TaskError;

fn globals(panic_on_drop: bool) -> Globals {
    Globals::new(
        "https://e".to_string(),
        "less".to_string(),
        "performance".to_string(),
        Choices::default(),
        0,
        panic_on_drop,
        false,
    )
}

fn auth() -> Authentication {
    Authentication::new("z1".to_string(), "pw".to_string())
}

fn tag(student: &str) -> JournalTag {
    JournalTag::new("lab01".to_string(), "g".to_string(), student.to_string())
}

#[test]
fn signing_in_takes_name_then_password() {
    let mut app = AppPreAuth::new(globals(true));
    assert!(matches!(app.state(), AppPreAuthState::EnteringZid));
    assert!(matches!(app.tick(), Ok(None)));
    assert!(app.submit("z1234567".to_string()).is_none());
    match app.state() {
        AppPreAuthState::EnteringPassword { zid } => assert_eq!(zid, "z1234567"),
        _ => panic!("the password is asked for"),
    }
    assert!(!app.abandoning(false));
    let job = app.submit("hunter2".to_string()).expect("the sign-in is asked for");
    assert_eq!(job.request.endpoint(), "https://e/api/v1/assignments/");
    assert_eq!(job.request.credentials().username(), "z1234567");
    assert_eq!(job.request.credentials().password(), "hunter2");
    match app.state() {
        AppPreAuthState::Authenticating { zid, password, task } => {
            assert_eq!(zid, "z1234567");
            assert_eq!(password, "hunter2");
            assert!(task.panic_on_drop());
        }
        _ => panic!("the sign-in runs"),
    }
    // while the sign-in runs a line is ignored
    assert!(app.submit("again".to_string()).is_none());
    assert!(matches!(app.state(), AppPreAuthState::Authenticating { .. }));
    assert!(matches!(app.tick(), Ok(None)));
    assert!(app.abandoning(false));
    assert!(job.reply.send(Ok(AuthTaskOutput { assignments: vec!["lab01".to_string()] })).is_ok());
    let signed_in = app.tick().ok().expect("no failure").expect("signed in");
    assert_eq!(signed_in.auth.username(), "z1234567");
    assert_eq!(signed_in.auth.password(), "hunter2");
    assert_eq!(signed_in.assignments, vec!["lab01".to_string()]);
    assert!(!app.abandoning(false));
    assert_eq!(app.globals().cgi_endpoint(), "https://e");
}

#[test]
fn a_refused_sign_in_surfaces() {
    let mut app = AppPreAuth::new(globals(false));
    app.submit("z1".to_string());
    let job = app.submit("wrong".to_string()).expect("the sign-in is asked for");
    assert!(job.reply.send(Err(anyhow::Error::msg("401"))).is_ok());
    match app.tick() {
        Err(TaskError::Failed(failure)) => assert_eq!(failure.to_string(), "401"),
        _ => panic!("the failure must surface"),
    }
}

fn assignments() -> AppPostAuth {
    AppPostAuth::new(
        globals(false),
        auth(),
        vec!["lab01".to_string(), "lab02".to_string(), "ass1".to_string()],
    )
}

#[test]
fn choosing_an_assignment_wraps_around() {
    let mut app = assignments();
    assert_eq!(app.current_assignment(), 0);
    assert_eq!(app.assignments().len(), 3);
    assert_eq!(app.auth().username(), "z1");
    for (key, expected) in [
        (Some(MarkingKey::Up), 2),
        (Some(MarkingKey::Down), 0),
        (Some(MarkingKey::Char('j')), 1),
        (Some(MarkingKey::Char('j')), 2),
        (Some(MarkingKey::Char('k')), 1),
        (Some(MarkingKey::Char('x')), 1),
        (Some(MarkingKey::Right), 1),
        (None, 1),
    ] {
        let tick = app.tick(key).ok().expect("nothing can fail");
        assert!(tick.job.is_none());
        assert!(tick.hand_off.is_none());
        assert_eq!(app.current_assignment(), expected);
        assert!(matches!(app.state(), AppPostAuthState::SelectingAssignment));
    }
}

#[test]
fn enter_asks_for_the_list_and_hands_it_off() {
    let mut app = assignments();
    app.tick(Some(MarkingKey::Down)).ok().expect("nothing can fail");
    let tick = app.tick(Some(MarkingKey::Enter)).ok().expect("nothing can fail");
    let job = tick.job.expect("the listing is asked for");
    assert_eq!(job.endpoint, "https://e/api/v1/assignments/lab02/submissions/");
    assert_eq!(job.assignment, "lab02");
    assert_eq!(job.auth.username(), "z1");
    assert!(matches!(app.state(), AppPostAuthState::LoadingJournals { .. }));
    // while the list is awaited keys are ignored
    let waiting = app.tick(Some(MarkingKey::Down)).ok().expect("not done yet");
    assert!(waiting.job.is_none() && waiting.hand_off.is_none());
    assert_eq!(app.current_assignment(), 1);
    assert!(!app.abandoning(false));
    let listed = list_journals(job.globals, job.assignment, &vec![(tag("z5"), JournalMeta::default())]);
    assert!(job.reply.send(listed.map_err(|_| anyhow::Error::msg("no journals"))).is_ok());
    let done = app.tick(None).ok().expect("the listing succeeded");
    let output = done.hand_off.expect("the listing is handed off");
    assert_eq!(output.assignment, "lab02");
    assert_eq!(output.journals.len(), 1);
}

#[test]
fn an_empty_list_of_assignments_ignores_keys() {
    let mut app = AppPostAuth::new(globals(false), auth(), vec![]);
    for key in [MarkingKey::Down, MarkingKey::Up, MarkingKey::Enter] {
        let tick = app.tick(Some(key)).ok().expect("nothing can fail");
        assert!(tick.job.is_none());
        assert_eq!(app.current_assignment(), 0);
        assert!(matches!(app.state(), AppPostAuthState::SelectingAssignment));
    }
}

fn list() -> AppJournalList {
    let mut journals = Journals::new(globals(false));
    for (student, name, mark) in [("z1", "Ann", None), ("z2", "Hanna", Some(5)), ("z3", "Bob", Some(9))] {
        let meta = JournalMeta::new(name.to_string(), None, mark.map(|m: u128| Mark::from_units(m * 1_000_000)), None);
        assert!(journals.insert(tag(student), meta).is_ok());
    }
    AppJournalList::new(globals(false), auth(), "lab01".to_string(), journals)
}

fn shown(app: &AppJournalList) -> Vec<String> {
    app.journals_view().iter().map(|t| t.student_id().to_string()).collect()
}

#[test]
fn the_list_shows_everything_then_what_passes_the_filter() {
    let mut app = list();
    assert_eq!(shown(&app), vec!["z3", "z2", "z1"]);
    assert_eq!(app.current_index(), 0);
    assert_eq!(app.assignment(), "lab01");
    assert_eq!(app.auth().username(), "z1");
    assert_eq!(app.globals().pager_command(), "less");
    assert_eq!(app.journals().len(), 3);
    app.select_next();
    app.select_next();
    assert_eq!(app.current_index(), 2);
    app.select_next();
    assert_eq!(app.current_index(), 0);
    app.select_prev();
    assert_eq!(app.current_index(), 2);
    app.set_filter("ann");
    assert_eq!(shown(&app), vec!["z2", "z1"]);
    assert_eq!(app.current_index(), 0);
    app.select_prev();
    assert_eq!(app.current_index(), 1);
    app.set_filter("nobody");
    assert!(shown(&app).is_empty());
    app.select_next();
    app.select_prev();
    assert_eq!(app.current_index(), 0);
    assert!(!app.abandoning(false));
    assert_eq!(app.quit().ok(), Some(true));
}

#[test]
fn opening_starts_marking_the_chosen_submission() {
    let mut app = list();
    app.set_filter("ann");
    app.select_next();
    let load = JournalLoadApp::from_journal_list(&app);
    assert_eq!(load.cgi_endpoint(), "https://e");
    let marking = app.open().ok().expect("a submission is chosen");
    assert_eq!(marking.live_journal_tag(), &tag("z1"));
    assert_eq!(marking.opened(), Opened::Manually);
    assert!(marking.side_pane().is_none());
    assert!(matches!(marking.state(), AppMarkingState::JournalReadyToQueue));
    assert_eq!(marking.journals().len(), 3);
    assert_eq!(marking.assignment(), "lab01");
}

#[test]
fn nothing_opens_where_nothing_is_shown() {
    let mut app = list();
    app.set_filter("nobody");
    let stayed = app.open().err().expect("nothing to open");
    assert_eq!(stayed.journals().len(), 3);
    assert!(stayed.journals_view().is_empty());
}

#[test]
fn the_backend_address_is_given_or_derived() {
    assert_eq!(
        get_cgi_endpoint(None, "cs1521", "22T1"),
        "https://cgi.cse.unsw.edu.au/~cs1521/22T1/imark/server.cgi/"
    );
    assert_eq!(get_cgi_endpoint(Some("http://localhost:8080".to_string()), "cs1521", "22T1"), "http://localhost:8080");
}

#[test]
fn the_pager_is_given_or_the_first_that_is_found() {
    let found = |course_bat, bat, less| PagersFound { course_bat, bat, less };
    assert_eq!(locate_pager(Some("most".to_string()), found(true, true, true)), Some("most".to_string()));
    assert_eq!(locate_pager(None, found(true, true, true)), Some("/home/cs6991/bin/bat --paging=always".to_string()));
    assert_eq!(locate_pager(None, found(false, true, true)), Some("bat --paging=always".to_string()));
    assert_eq!(locate_pager(None, found(false, false, true)), Some("less".to_string()));
    assert_eq!(locate_pager(None, found(false, false, false)), None);
}

#[test]
fn list_cursors_wrap() {
    assert_eq!(wrap_next(0, 3), 1);
    assert_eq!(wrap_next(2, 3), 0);
    assert_eq!(wrap_next(0, 1), 0);
    assert_eq!(wrap_prev(0, 3), 2);
    assert_eq!(wrap_prev(2, 3), 1);
    assert_eq!(wrap_prev(0, 1), 0);
    assert_eq!(wrap_next(usize::MAX - 1, usize::MAX), 0);
    assert_eq!(wrap_prev(0, usize::MAX), usize::MAX - 1);
}

#[test]
fn the_list_drains_its_queue_step_by_step() {
    let mut journals = Journals::new(globals(false));
    for student in ["z1", "z2"] {
        assert!(journals.insert(tag(student), JournalMeta::default()).is_ok());
    }
    let first = journals.queue_load(tag("z1"), "e", auth(), "performance").expect("known");
    let second = journals.queue_load(tag("z2"), "e", auth(), "performance").expect("known");
    let mut app = AppJournalList::new(globals(false), auth(), "lab01".to_string(), journals);
    assert_eq!(app.quit().ok(), Some(false));
    assert_eq!(app.journals().queue_size(), 2);
    assert!(first.reply.send(Err(anyhow::Error::msg("502"))).is_ok());
    match app.quit() {
        Err(TaskError::Failed(failure)) => assert_eq!(failure.to_string(), "502"),
        _ => panic!("the failure must surface"),
    }
    assert_eq!(app.journals().queue_size(), 1);
    assert_eq!(app.quit().ok(), Some(false));
    assert!(second.reply.send(Ok(Completion::Marked)).is_ok());
    assert_eq!(app.quit().ok(), Some(true));
    assert_eq!(app.journals().queue_size(), 0);
    assert_eq!(app.quit().ok(), Some(true));
    assert_eq!(shown(&app), vec!["z1", "z2"]);
}

#[test]
fn a_sign_in_found_done_before_a_drop_is_still_handed_out() {
    let mut app = AppPreAuth::new(globals(true));
    app.submit("z1".to_string());
    let job = app.submit("pw".to_string()).expect("the sign-in is asked for");
    assert!(!app.abandoning(true));
    assert!(app.abandoning(false));
    assert!(job.reply.send(Ok(AuthTaskOutput { assignments: vec![] })).is_ok());
    assert!(!app.abandoning(false));
    let signed_in = app.tick().ok().expect("no failure").expect("signed in");
    assert_eq!(signed_in.auth.username(), "z1");
    assert!(!app.abandoning(false));
}

#[test]
fn a_listing_that_is_gone_may_be_dropped() {
    let mut app = AppPostAuth::new(globals(true), auth(), vec!["lab01".to_string()]);
    assert!(!app.abandoning(false));
    let tick = app.tick(Some(MarkingKey::Enter)).ok().expect("nothing can fail");
    let job = tick.job.expect("the listing is asked for");
    assert!(app.abandoning(false));
    assert!(!app.abandoning(true));
    drop(job);
    assert!(!app.abandoning(false));
    assert!(matches!(app.tick(None), Err(TaskError::Disconnected)));
}
