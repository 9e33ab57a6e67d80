//! The screens before marking: signing in, choosing an assignment, and
//! choosing a submission from the list. Each is a small state machine that
//! decides; the caller reads the keys, runs the jobs and draws.

use vstd::prelude::*;
use crate::auth::{AuthTaskOutput, AuthenticateTask};
use crate::config::{wrap_next, wrap_prev};
use crate::imark::{Authentication, Globals, GlobalsView, JournalTag, TagView};
use crate::journals::{scan_led, task_view, holds_work, store_looked_at, Journals, QueuedView, StoreView};
use crate::listing::{filter_journals, passing, tag_views};
use crate::marking::{
    listing_endpoint, listing_url, scanned, AppMarking, FetchJournalsOutput, ListJob, MarkingKey,
    MarkingView, Opened, PhaseView,
};
use crate::task::{Task, TaskError};

verus! {

/// The work that signing in asks for: send `request`, and report the
/// assignments through `reply`.
pub struct AuthJob {
    pub request: AuthenticateTask,
    pub reply: tokio::sync::oneshot::Sender<Result<AuthTaskOutput, anyhow::Error>>,
}

/// Where signing in stands.
pub enum AppPreAuthState {
    EnteringZid,
    EnteringPassword { zid: String },
    Authenticating { zid: String, password: String, task: Task<AuthTaskOutput> },
}

pub ghost enum PreAuthView {
    EnteringZid,
    EnteringPassword(Seq<char>),
    Authenticating(Seq<char>, Seq<char>, QueuedView),
}

impl View for AppPreAuthState {
    type V = PreAuthView;

    open spec fn view(&self) -> PreAuthView {
        match *self {
            AppPreAuthState::EnteringZid => PreAuthView::EnteringZid,
            AppPreAuthState::EnteringPassword { zid } => PreAuthView::EnteringPassword(zid@),
            AppPreAuthState::Authenticating { zid, password, task } => PreAuthView::Authenticating(
                zid@,
                password@,
                task_view(task),
            ),
        }
    }
}

/// What signing in brings: the operator's credentials, which the backend
/// accepted, and the assignments that the operator may mark.
pub struct SignedIn {
    pub auth: Authentication,
    pub assignments: Vec<String>,
}

/// The sign-in screen.
pub struct AppPreAuth {
    globals: Globals,
    state: AppPreAuthState,
}

impl AppPreAuth {
    pub closed spec fn spec_globals(&self) -> GlobalsView {
        self.globals@
    }

    pub closed spec fn phase(&self) -> PreAuthView {
        self.state@
    }

    pub fn new(globals: Globals) -> (app: Self)
        ensures
            app.spec_globals() == globals@,
            app.phase() == PreAuthView::EnteringZid,
    {
        AppPreAuth { globals, state: AppPreAuthState::EnteringZid }
    }

    pub fn globals(&self) -> (globals: &Globals)
        ensures
            globals@ == self.spec_globals(),
    {
        &self.globals
    }

    pub fn state(&self) -> (state: &AppPreAuthState)
        ensures
            state@ == self.phase(),
    {
        &self.state
    }

    /// Takes the line that the operator submitted. The first line is the
    /// user name. The second is the password: with it the sign-in is asked
    /// for, and its job handed out. While the sign-in runs a line is ignored.
    pub fn submit(&mut self, line: String) -> (job: Option<AuthJob>)
        ensures
            final(self).spec_globals() == old(self).spec_globals(),
            match old(self).phase() {
                PreAuthView::EnteringZid => {
                    &&& job is None
                    &&& final(self).phase() == PreAuthView::EnteringPassword(line@)
                },
                PreAuthView::EnteringPassword(zid) => {
                    &&& job matches Some(job)
                    &&& job.request.spec_endpoint() == old(self).spec_globals().cgi_endpoint
                    &&& job.request.spec_credentials() == (zid, line@)
                    &&& final(self).phase() == PreAuthView::Authenticating(
                        zid,
                        line@,
                        QueuedView::fresh(old(self).spec_globals().panic_on_drop),
                    )
                },
                PreAuthView::Authenticating(_, _, _) => {
                    &&& job is None
                    &&& final(self).phase() == old(self).phase()
                },
            },
    {
        let mut state = AppPreAuthState::EnteringZid;
        std::mem::swap(&mut self.state, &mut state);
        match state {
            AppPreAuthState::EnteringZid => {
                self.state = AppPreAuthState::EnteringPassword { zid: line };
                None
            },
            AppPreAuthState::EnteringPassword { zid } => {
                let request = AuthenticateTask::new(
                    self.globals.cgi_endpoint().to_owned(),
                    zid.clone(),
                    line.clone(),
                );
                let (task, reply) = Task::new(self.globals.panic_on_drop());
                self.state = AppPreAuthState::Authenticating { zid, password: line, task };
                Some(AuthJob { request, reply })
            },
            other => {
                self.state = other;
                None
            },
        }
    }

    /// Looks whether the sign-in is done. Before the sign-in was asked for
    /// there is nothing to look at.
    pub fn tick(&mut self) -> (done: Result<Option<SignedIn>, TaskError>)
        ensures
            final(self).spec_globals() == old(self).spec_globals(),
            match old(self).phase() {
                PreAuthView::Authenticating(zid, password, task) => {
                    &&& final(self).phase() == PreAuthView::Authenticating(
                        zid,
                        password,
                        QueuedView {
                            resolved: !(done matches Ok(None)),
                            holding: task.resolved && task.holding,
                            ..task
                        },
                    )
                    &&& done matches Ok(Some(signed)) ==> signed.auth@ == (zid, password)
                },
                _ => done matches Ok(None) && final(self).phase() == old(self).phase(),
            },
    {
        match &mut self.state {
            AppPreAuthState::Authenticating { zid, password, task } => {
                match task.poll() {
                    Ok(Some(output)) => Ok(
                        Some(
                            SignedIn {
                                auth: Authentication::new(zid.clone(), password.clone()),
                                assignments: output.assignments,
                            },
                        ),
                    ),
                    Ok(None) => Ok(None),
                    Err(failure) => Err(failure),
                }
            },
            _ => Ok(None),
        }
    }
}

/// Where choosing an assignment stands.
pub enum AppPostAuthState {
    SelectingAssignment,
    LoadingJournals { task: Task<FetchJournalsOutput> },
}

pub ghost enum PostAuthPhase {
    SelectingAssignment,
    LoadingJournals(QueuedView),
}

impl View for AppPostAuthState {
    type V = PostAuthPhase;

    open spec fn view(&self) -> PostAuthPhase {
        match *self {
            AppPostAuthState::SelectingAssignment => PostAuthPhase::SelectingAssignment,
            AppPostAuthState::LoadingJournals { task } => PostAuthPhase::LoadingJournals(
                task_view(task),
            ),
        }
    }
}

/// The views of `texts`, in order.
pub open spec fn text_views(texts: Seq<String>) -> Seq<Seq<char>> {
    Seq::new(texts.len(), |i: int| texts[i]@)
}

pub ghost struct PostAuthView {
    pub globals: GlobalsView,
    pub auth: (Seq<char>, Seq<char>),
    pub assignments: Seq<Seq<char>>,
    pub current: nat,
    pub phase: PostAuthPhase,
}

/// The screen on which the operator chooses an assignment.
pub struct AppPostAuth {
    globals: Globals,
    auth: Authentication,
    assignments: Vec<String>,
    current_assignment: usize,
    state: AppPostAuthState,
}

impl View for AppPostAuth {
    type V = PostAuthView;

    closed spec fn view(&self) -> PostAuthView {
        PostAuthView {
            globals: self.globals@,
            auth: self.auth@,
            assignments: text_views(self.assignments@),
            current: self.current_assignment as nat,
            phase: self.state@,
        }
    }
}

/// What one tick of the assignment screen asks of the caller.
pub struct PostAuthTick {
    /// The listing to run in the background.
    pub job: Option<ListJob>,
    /// The listing to hand to the next screen; with it this screen ends.
    pub hand_off: Option<FetchJournalsOutput>,
}

/// What a key does while an assignment is chosen: down and `j` move to the
/// next assignment, up and `k` to the one before, both around the ends, and
/// enter asks for the list of the chosen assignment. Over no assignments no
/// key does anything.
pub open spec fn chosen(
    before: PostAuthView,
    key: Option<MarkingKey>,
    after: PostAuthView,
    tick: PostAuthTick,
) -> bool {
    let count = before.assignments.len() as int;
    let next = key == Some(MarkingKey::Down) || key == Some(MarkingKey::Char('j'));
    let prev = key == Some(MarkingKey::Up) || key == Some(MarkingKey::Char('k'));
    &&& tick.hand_off is None
    &&& if before.current >= count || !(next || prev || key == Some(MarkingKey::Enter)) {
        tick.job is None && after == before
    } else if next {
        tick.job is None && after == (PostAuthView {
            current: ((before.current as int + 1) % count) as nat,
            ..before
        })
    } else if prev {
        tick.job is None && after == (PostAuthView {
            current: ((before.current as int + count - 1) % count) as nat,
            ..before
        })
    } else {
        &&& tick.job matches Some(job)
        &&& job.endpoint@ == listing_url(
            before.globals.cgi_endpoint,
            before.assignments[before.current as int],
        )
        &&& job.auth@ == before.auth
        &&& job.assignment@ == before.assignments[before.current as int]
        &&& job.globals@ == before.globals
        &&& after == (PostAuthView {
            phase: PostAuthPhase::LoadingJournals(
                QueuedView::fresh(before.globals.panic_on_drop),
            ),
            ..before
        })
    }
}

impl AppPostAuth {
    pub fn new(globals: Globals, auth: Authentication, assignments: Vec<String>) -> (app: Self)
        ensures
            app@ == (PostAuthView {
                globals: globals@,
                auth: auth@,
                assignments: text_views(assignments@),
                current: 0,
                phase: PostAuthPhase::SelectingAssignment,
            }),
    {
        AppPostAuth {
            globals,
            auth,
            assignments,
            current_assignment: 0,
            state: AppPostAuthState::SelectingAssignment,
        }
    }

    pub fn globals(&self) -> (globals: &Globals)
        ensures
            globals@ == self@.globals,
    {
        &self.globals
    }

    pub fn auth(&self) -> (auth: &Authentication)
        ensures
            auth@ == self@.auth,
    {
        &self.auth
    }

    pub fn assignments(&self) -> (assignments: &Vec<String>)
        ensures
            text_views(assignments@) == self@.assignments,
    {
        &self.assignments
    }

    pub fn current_assignment(&self) -> (current: usize)
        ensures
            current == self@.current,
    {
        self.current_assignment
    }

    pub fn state(&self) -> (state: &AppPostAuthState)
        ensures
            state@ == self@.phase,
    {
        &self.state
    }

    /// One tick of the screen, with the key that the operator pressed since
    /// the last one, if any. While the list is awaited its task is polled and
    /// keys are ignored; a list that has arrived is handed off.
    pub fn tick(&mut self, key: Option<MarkingKey>) -> (outcome: Result<PostAuthTick, TaskError>)
        ensures
            match old(self)@.phase {
                PostAuthPhase::SelectingAssignment => outcome matches Ok(tick) && chosen(
                    old(self)@,
                    key,
                    final(self)@,
                    tick,
                ),
                PostAuthPhase::LoadingJournals(task) => {
                    &&& final(self)@ == (PostAuthView {
                        phase: PostAuthPhase::LoadingJournals(
                            QueuedView {
                                resolved: !(outcome matches Ok(tick) && tick.hand_off is None),
                                holding: task.resolved && task.holding,
                                ..task
                            },
                        ),
                        ..old(self)@
                    })
                    &&& outcome matches Ok(tick) ==> tick.job is None
                },
            },
    {
        match &mut self.state {
            AppPostAuthState::LoadingJournals { task } => {
                return match task.poll() {
                    Ok(hand_off) => Ok(PostAuthTick { job: None, hand_off }),
                    Err(failure) => Err(failure),
                };
            },
            AppPostAuthState::SelectingAssignment => {},
        }
        let count: usize = self.assignments.len();
        let mut job: Option<ListJob> = None;
        if self.current_assignment < count {
            match key {
                Some(MarkingKey::Down) | Some(MarkingKey::Char('j')) => {
                    self.current_assignment = wrap_next(self.current_assignment, count);
                },
                Some(MarkingKey::Up) | Some(MarkingKey::Char('k')) => {
                    self.current_assignment = wrap_prev(self.current_assignment, count);
                },
                Some(MarkingKey::Enter) => {
                    let assignment = self.assignments[self.current_assignment].clone();
                    let (task, reply) = Task::new(self.globals.panic_on_drop());
                    job = Some(
                        ListJob {
                            endpoint: listing_endpoint(
                                self.globals.cgi_endpoint(),
                                assignment.as_str(),
                            ),
                            auth: self.auth.clone(),
                            assignment,
                            globals: self.globals.clone(),
                            reply,
                        },
                    );
                    self.state = AppPostAuthState::LoadingJournals { task };
                },
                _ => {},
            }
        }
        Ok(PostAuthTick { job, hand_off: None })
    }
}

pub ghost struct JournalListView {
    pub globals: GlobalsView,
    pub auth: (Seq<char>, Seq<char>),
    pub assignment: Seq<char>,
    pub store: StoreView,
    pub shown: Seq<TagView>,
    pub current: nat,
}

/// The screen on which the operator chooses a submission from the list.
pub struct AppJournalList {
    globals: Globals,
    auth: Authentication,
    assignment: String,
    journals: Journals,
    journals_view: Vec<JournalTag>,
    current_index: usize,
}

impl View for AppJournalList {
    type V = JournalListView;

    closed spec fn view(&self) -> JournalListView {
        JournalListView {
            globals: self.globals@,
            auth: self.auth@,
            assignment: self.assignment@,
            store: self.journals@,
            shown: tag_views(self.journals_view@),
            current: self.current_index as nat,
        }
    }
}

/// The tags of the store's submissions that pass `filter`, in display
/// order.
pub open spec fn filtered(store: StoreView, filter: Seq<char>) -> Seq<TagView> {
    passing(store.tags, store.journals, filter, store.tags.len() as int)
}

impl AppJournalList {
    /// The list of all submissions of `journals`, the first one chosen.
    pub fn new(globals: Globals, auth: Authentication, assignment: String, journals: Journals) -> (app:
        Self)
        ensures
            app@ == (JournalListView {
                globals: globals@,
                auth: auth@,
                assignment: assignment@,
                store: journals@,
                shown: filtered(journals@, Seq::empty()),
                current: 0,
            }),
    {
        let journals_view = filter_journals(&journals, "");
        proof {
            reveal_strlit("");
            assert(""@ =~= Seq::<char>::empty());
        }
        AppJournalList { globals, auth, assignment, journals, journals_view, current_index: 0 }
    }

    pub fn globals(&self) -> (globals: &Globals)
        ensures
            globals@ == self@.globals,
    {
        &self.globals
    }

    pub fn auth(&self) -> (auth: &Authentication)
        ensures
            auth@ == self@.auth,
    {
        &self.auth
    }

    pub fn assignment(&self) -> (assignment: &str)
        ensures
            assignment@ == self@.assignment,
    {
        self.assignment.as_str()
    }

    pub fn journals(&self) -> (journals: &Journals)
        ensures
            journals@ == self@.store,
    {
        &self.journals
    }

    pub fn journals_view(&self) -> (shown: &[JournalTag])
        ensures
            tag_views(shown@) == self@.shown,
    {
        self.journals_view.as_slice()
    }

    pub fn current_index(&self) -> (current: usize)
        ensures
            current == self@.current,
    {
        self.current_index
    }

    /// Moves to the next submission that is shown, from the last to the
    /// first. Over none nothing changes.
    pub fn select_next(&mut self)
        ensures
            final(self)@ == (JournalListView {
                current: if old(self)@.current < old(self)@.shown.len() {
                    ((old(self)@.current as int + 1) % (old(self)@.shown.len() as int)) as nat
                } else {
                    old(self)@.current
                },
                ..old(self)@
            }),
    {
        if self.current_index < self.journals_view.len() {
            self.current_index = wrap_next(self.current_index, self.journals_view.len());
        }
    }

    /// Moves to the submission before, from the first to the last. Over none
    /// nothing changes.
    pub fn select_prev(&mut self)
        ensures
            final(self)@ == (JournalListView {
                current: if old(self)@.current < old(self)@.shown.len() {
                    ((old(self)@.current as int + old(self)@.shown.len() - 1) % (old(
                        self,
                    )@.shown.len() as int)) as nat
                } else {
                    old(self)@.current
                },
                ..old(self)@
            }),
    {
        if self.current_index < self.journals_view.len() {
            self.current_index = wrap_prev(self.current_index, self.journals_view.len());
        }
    }

    /// Shows the submissions that pass `filter`, the first of them chosen.
    pub fn set_filter(&mut self, filter: &str)
        ensures
            final(self)@ == (JournalListView {
                shown: filtered(old(self)@.store, filter@),
                current: 0,
                ..old(self)@
            }),
    {
        self.journals_view = filter_journals(&self.journals, filter);
        self.current_index = 0;
    }

    /// Opens the chosen submission for marking. Where none is chosen the
    /// screen stays.
    pub fn open(self) -> (opened: Result<AppMarking, Self>)
        requires
            self@.store.wf(),
        ensures
            match opened {
                Ok(marking) => {
                    &&& self@.current < self@.shown.len()
                    &&& marking@.wf()
                    &&& marking@ == (MarkingView {
                        globals: self@.globals,
                        auth: self@.auth,
                        assignment: self@.assignment,
                        store: self@.store,
                        live: self@.shown[self@.current as int],
                        opened: Opened::Manually,
                        pane: None,
                        phase: PhaseView::ReadyToQueue,
                    })
                },
                Err(stayed) => self@.current >= self@.shown.len() && stayed@ == self@,
            },
    {
        if self.current_index < self.journals_view.len() {
            let live = self.journals_view[self.current_index].clone();
            Ok(
                AppMarking::new(
                    self.globals,
                    self.auth,
                    self.assignment,
                    self.journals,
                    live,
                    Opened::Manually,
                    None,
                ),
            )
        } else {
            Err(self)
        }
    }

    /// One step of the drain before the process ends: one scan of the
    /// store's queue, and whether that left it empty. Over an empty queue the
    /// step succeeds and changes nothing. A failure is the scan's: that of a
    /// task, which has then left the queue.
    pub fn quit(&mut self) -> (drained: Result<bool, TaskError>)
        requires
            old(self)@.store.wf(),
        ensures
            final(self)@ == (JournalListView { store: final(self)@.store, ..old(self)@ }),
            scanned(old(self)@.store, final(self)@.store),
            scan_led(
                old(self)@.store,
                final(self)@.store,
                match drained {
                    Err(failure) => Some(failure),
                    Ok(_) => None,
                },
            ),
            match drained {
                Ok(done) => done == (final(self)@.store.queue.len() == 0),
                Err(_) => final(self)@.store.queue.len() < old(self)@.store.queue.len(),
            },
            old(self)@.store.queue.len() == 0 ==> (drained matches Ok(true)) && final(self)@ == old(
                self,
            )@,
    {
        match self.journals.scan_queue() {
            Ok(left) => Ok(left == 0),
            Err(failure) => Err(failure),
        }
    }

    /// Whether dropping the screen now would lose work that must complete.
    /// `unwinding` says that the thread is already panicking: then nothing is
    /// lost that matters, and the screen stays as it is. Else the queued
    /// tasks that must complete look at their channels, from the first, up to
    /// the first whose work may still be under way. To drop the screen is
    /// fatal exactly if there is such a task.
    pub fn abandoning(&mut self, unwinding: bool) -> (fatal: bool)
        ensures
            final(self)@ == (JournalListView { store: final(self)@.store, ..old(self)@ }),
            store_looked_at(old(self)@.store, final(self)@.store),
            old(self)@.store.wf() ==> final(self)@.store.wf(),
            unwinding ==> final(self)@ == old(self)@,
            fatal == (!unwinding && holds_work(final(self)@.store.queue)),
    {
        self.journals.abandoning(unwinding)
    }
}

/// Whether the sign-in that is under way is work that must complete and may
/// still be under way.
pub open spec fn sign_in_outstanding(phase: PreAuthView) -> bool {
    phase matches PreAuthView::Authenticating(_, _, task) && task.outstanding()
}

/// Whether `after` is the phase `before` after a look at the channel of the
/// sign-in, where one is under way.
pub open spec fn sign_in_looked_at(before: PreAuthView, after: PreAuthView) -> bool {
    match before {
        PreAuthView::Authenticating(zid, password, task) => after matches PreAuthView::Authenticating(
            same_zid,
            same_password,
            looked,
        ) && same_zid == zid && same_password == password && task.looked_at(looked),
        _ => after == before,
    }
}

/// Whether the listing that is awaited is work that must complete and may
/// still be under way.
pub open spec fn listing_outstanding(phase: PostAuthPhase) -> bool {
    phase matches PostAuthPhase::LoadingJournals(task) && task.outstanding()
}

/// Whether `after` is the phase `before` after a look at the channel of the
/// listing, where one is awaited.
pub open spec fn listing_looked_at(before: PostAuthPhase, after: PostAuthPhase) -> bool {
    match before {
        PostAuthPhase::LoadingJournals(task) => after matches PostAuthPhase::LoadingJournals(looked)
            && task.looked_at(looked),
        _ => after == before,
    }
}

impl AppPreAuth {
    /// Whether dropping the screen now would lose work that must complete.
    /// `unwinding` says that the thread is already panicking: then nothing is
    /// lost that matters, and the screen stays as it is. Else a sign-in that
    /// must complete looks at its channel. To drop the screen is fatal
    /// exactly if such a sign-in may still be under way.
    pub fn abandoning(&mut self, unwinding: bool) -> (fatal: bool)
        ensures
            final(self).spec_globals() == old(self).spec_globals(),
            sign_in_looked_at(old(self).phase(), final(self).phase()),
            unwinding ==> final(self).phase() == old(self).phase(),
            fatal == (!unwinding && sign_in_outstanding(final(self).phase())),
    {
        match &mut self.state {
            AppPreAuthState::Authenticating { task, .. } => task.abandoning(unwinding),
            _ => false,
        }
    }
}

impl AppPostAuth {
    /// Whether dropping the screen now would lose work that must complete.
    /// `unwinding` says that the thread is already panicking: then nothing is
    /// lost that matters, and the screen stays as it is. Else a listing that
    /// must complete looks at its channel. To drop the screen is fatal
    /// exactly if such a listing may still be under way.
    pub fn abandoning(&mut self, unwinding: bool) -> (fatal: bool)
        ensures
            final(self)@ == (PostAuthView { phase: final(self)@.phase, ..old(self)@ }),
            listing_looked_at(old(self)@.phase, final(self)@.phase),
            unwinding ==> final(self)@ == old(self)@,
            fatal == (!unwinding && listing_outstanding(final(self)@.phase)),
    {
        match &mut self.state {
            AppPostAuthState::LoadingJournals { task } => task.abandoning(unwinding),
            _ => false,
        }
    }
}

} // verus!
