//! The marking orchestrator: the state machine that takes the operator from
//! one submission to the next. It asks the store to load the live
//! submission, has it shown, collects the operator's choices, queues the
//! mark, and moves on, back, or out to the list.
//!
//! It decides and the caller acts: every tick returns the effects to carry
//! out, and what they bring about comes back through the store's queue.

use vstd::prelude::*;
use vstd::string::StringExecFns;
use crate::choice::{
    awarded_mark, fresh_selections, justification_lines, line_views, toggled, ChoiceSelections,
    SelectionsView,
};
use crate::exposure::{exposed_files, viewer_command, viewer_request, with_names, TmuxPane, ViewerRequest};
use crate::imark::{
    first_file_named, has_file_named, Authentication, Globals, GlobalsView, JournalTag, TagView,
};
use crate::journals::{scan_led, task_view, 
    evolved, holds_work, store_looked_at, submission_url, unloaded, Journals, LoadJob, MarkJob,
    QueuedView, StoreError, StoreView,
};
use crate::task::{Task, TaskError};

verus! {

/// A key as the operator pressed it.
#[derive(Clone, Copy, Debug, PartialEq, Eq, Structural)]
pub enum MarkingKey {
    Down,
    Up,
    Right,
    Enter,
    Char(char),
    Other,
}

/// What a key asks of the orchestrator while a submission is marked.
#[derive(Clone, Copy, Debug, PartialEq, Eq, Structural)]
pub enum MarkingCommand {
    CursorNext,
    CursorPrev,
    Toggle,
    Quit,
    Back,
    Skip,
    /// Toggle the directive at this place among the scoring directives.
    Hotkey(usize),
    Submit,
    Ignore,
}

/// The hotkey alphabet. The key at place `i` toggles the scoring directive
/// at place `i`.
pub open spec fn hotkeys() -> Seq<char> {
    seq![
        '1', '2', '3', '4', '5', '6', '7', '8', '9', '0', 'a', 'c', 'd', 'e', 'f', 'g', 'h', 'i',
        'l', 'm', 'n', 'o', 'p', 'r', 't', 'u', 'v', 'w', 'x', 'y', 'z',
    ]
}

/// The hotkey for the scoring directive at place `index`, where the
/// alphabet reaches that far.
pub fn hotkey_at(index: usize) -> (key: Option<char>)
    ensures
        key == if index < hotkeys().len() {
            Some(hotkeys()[index as int])
        } else {
            None
        },
{
    if index == 0 {
        Some('1')
    } else if index == 1 {
        Some('2')
    } else if index == 2 {
        Some('3')
    } else if index == 3 {
        Some('4')
    } else if index == 4 {
        Some('5')
    } else if index == 5 {
        Some('6')
    } else if index == 6 {
        Some('7')
    } else if index == 7 {
        Some('8')
    } else if index == 8 {
        Some('9')
    } else if index == 9 {
        Some('0')
    } else if index == 10 {
        Some('a')
    } else if index == 11 {
        Some('c')
    } else if index == 12 {
        Some('d')
    } else if index == 13 {
        Some('e')
    } else if index == 14 {
        Some('f')
    } else if index == 15 {
        Some('g')
    } else if index == 16 {
        Some('h')
    } else if index == 17 {
        Some('i')
    } else if index == 18 {
        Some('l')
    } else if index == 19 {
        Some('m')
    } else if index == 20 {
        Some('n')
    } else if index == 21 {
        Some('o')
    } else if index == 22 {
        Some('p')
    } else if index == 23 {
        Some('r')
    } else if index == 24 {
        Some('t')
    } else if index == 25 {
        Some('u')
    } else if index == 26 {
        Some('v')
    } else if index == 27 {
        Some('w')
    } else if index == 28 {
        Some('x')
    } else if index == 29 {
        Some('y')
    } else if index == 30 {
        Some('z')
    } else {
        None
    }
}

/// The place of `key` in the hotkey alphabet.
pub fn hotkey_index(key: char) -> (index: Option<usize>)
    ensures
        match index {
            Some(index) => index < hotkeys().len() && hotkeys()[index as int] == key,
            None => !hotkeys().contains(key),
        },
{
    let mut index: usize = 0;
    while index < 31
        invariant
            index <= 31,
            hotkeys().len() == 31,
            forall|i: int| 0 <= i < index ==> hotkeys()[i] != key,
        decreases 31 - index,
    {
        match hotkey_at(index) {
            Some(at) => {
                if at == key {
                    return Some(index);
                }
            },
            None => {},
        }
        index = index + 1;
    }
    None
}

/// What `key` asks for: the arrows and `j`, `k` move the cursor, the space
/// bar and the right arrow toggle, `q` quits, `b` goes back, `s` skips,
/// enter submits, a hotkey toggles its directive, and any other key is
/// ignored.
pub open spec fn command_of(key: MarkingKey) -> MarkingCommand {
    match key {
        MarkingKey::Down => MarkingCommand::CursorNext,
        MarkingKey::Up => MarkingCommand::CursorPrev,
        MarkingKey::Right => MarkingCommand::Toggle,
        MarkingKey::Enter => MarkingCommand::Submit,
        MarkingKey::Other => MarkingCommand::Ignore,
        MarkingKey::Char(c) => if c == 'j' {
            MarkingCommand::CursorNext
        } else if c == 'k' {
            MarkingCommand::CursorPrev
        } else if c == ' ' {
            MarkingCommand::Toggle
        } else if c == 'q' {
            MarkingCommand::Quit
        } else if c == 'b' {
            MarkingCommand::Back
        } else if c == 's' {
            MarkingCommand::Skip
        } else if hotkeys().contains(c) {
            MarkingCommand::Hotkey(hotkeys().index_of(c) as usize)
        } else {
            MarkingCommand::Ignore
        },
    }
}

/// No key stands twice in the hotkey alphabet.
pub proof fn lemma_hotkeys_distinct()
    ensures
        hotkeys().no_duplicates(),
        hotkeys().len() == 31,
{
}

/// What `key` asks for.
pub fn command_for(key: MarkingKey) -> (command: MarkingCommand)
    ensures
        command == command_of(key),
{
    match key {
        MarkingKey::Down => MarkingCommand::CursorNext,
        MarkingKey::Up => MarkingCommand::CursorPrev,
        MarkingKey::Right => MarkingCommand::Toggle,
        MarkingKey::Enter => MarkingCommand::Submit,
        MarkingKey::Other => MarkingCommand::Ignore,
        MarkingKey::Char(c) => {
            if c == 'j' {
                MarkingCommand::CursorNext
            } else if c == 'k' {
                MarkingCommand::CursorPrev
            } else if c == ' ' {
                MarkingCommand::Toggle
            } else if c == 'q' {
                MarkingCommand::Quit
            } else if c == 'b' {
                MarkingCommand::Back
            } else if c == 's' {
                MarkingCommand::Skip
            } else {
                match hotkey_index(c) {
                    Some(index) => {
                        proof {
                            lemma_hotkeys_distinct();
                            let found = hotkeys().index_of(c);
                            assert(0 <= found < hotkeys().len() && hotkeys()[found] == c);
                        }
                        MarkingCommand::Hotkey(index)
                    },
                    None => MarkingCommand::Ignore,
                }
            }
        },
    }
}

/// How the operator came to the live submission: by opening it, or in a run
/// over the submissions that are not marked yet, of which `remaining` are
/// still to do.
#[derive(Clone, Copy, Debug, PartialEq, Eq, Structural)]
pub enum Opened {
    Manually,
    Automatically { remaining: usize },
}

impl Opened {
    /// The countdown after one submission was dealt with. It stops at zero.
    pub open spec fn spec_decremented(self) -> Opened {
        match self {
            Opened::Manually => Opened::Manually,
            Opened::Automatically { remaining } => Opened::Automatically {
                remaining: if remaining == 0 {
                    0usize
                } else {
                    (remaining - 1) as usize
                },
            },
        }
    }

    /// The countdown after a step back. It stops at the largest count.
    pub open spec fn spec_incremented(self) -> Opened {
        match self {
            Opened::Manually => Opened::Manually,
            Opened::Automatically { remaining } => Opened::Automatically {
                remaining: if remaining == usize::MAX {
                    usize::MAX
                } else {
                    (remaining + 1) as usize
                },
            },
        }
    }

    /// Whether a run has nothing left to do.
    pub open spec fn spec_exhausted(self) -> bool {
        self == (Opened::Automatically { remaining: 0 })
    }

    pub fn decremented(self) -> (after: Opened)
        ensures
            after == self.spec_decremented(),
    {
        match self {
            Opened::Manually => Opened::Manually,
            Opened::Automatically { remaining } => Opened::Automatically {
                remaining: if remaining == 0 {
                    0
                } else {
                    remaining - 1
                },
            },
        }
    }

    pub fn incremented(self) -> (after: Opened)
        ensures
            after == self.spec_incremented(),
    {
        match self {
            Opened::Manually => Opened::Manually,
            Opened::Automatically { remaining } => Opened::Automatically {
                remaining: if remaining == usize::MAX {
                    usize::MAX
                } else {
                    remaining + 1
                },
            },
        }
    }

    pub fn is_exhausted(&self) -> (exhausted: bool)
        ensures
            exhausted == self.spec_exhausted(),
    {
        match self {
            Opened::Manually => false,
            Opened::Automatically { remaining } => *remaining == 0,
        }
    }
}

/// What the listing of an assignment brings: the assignment and a store
/// that holds its submissions.
pub struct FetchJournalsOutput {
    pub assignment: String,
    pub journals: Journals,
}

/// The address of an assignment's list of submissions at the backend.
pub open spec fn listing_url(cgi_endpoint: Seq<char>, assignment: Seq<char>) -> Seq<char> {
    cgi_endpoint + "/api/v1/assignments/"@ + assignment + "/submissions/"@
}

/// The address of `assignment`'s list of submissions at the backend.
pub fn listing_endpoint(cgi_endpoint: &str, assignment: &str) -> (url: String)
    ensures
        url@ == listing_url(cgi_endpoint@, assignment@),
{
    let mut url = String::new();
    url.append(cgi_endpoint);
    url.append("/api/v1/assignments/");
    url.append(assignment);
    url.append("/submissions/");
    proof {
        assert(url@ =~= listing_url(cgi_endpoint@, assignment@));
    }
    url
}

/// The work that a return to the list asks for: fetch the submissions of
/// `assignment` from `endpoint` with `auth`, list them in a store made with
/// `globals`, and report through `reply`.
pub struct ListJob {
    pub endpoint: String,
    pub auth: Authentication,
    pub assignment: String,
    pub globals: Globals,
    pub reply: tokio::sync::oneshot::Sender<Result<FetchJournalsOutput, anyhow::Error>>,
}

/// One thing for the caller to carry out after a tick.
pub enum MarkingEffect {
    /// Run this load in the background.
    Load(LoadJob),
    /// Run this marking in the background.
    Mark(MarkJob),
    /// Expose the files of the submission under this tag.
    Expose(JournalTag),
    /// Show the exposed files in the viewer.
    View(ViewerRequest),
    /// Run this listing in the background.
    List(ListJob),
}

/// Why a tick failed.
pub enum MarkingError {
    /// A background task failed.
    Task(TaskError),
    /// The store refused a request.
    Store(StoreError),
}

/// What a tick asks of the caller.
pub struct Tick {
    /// What to carry out, in this order.
    pub effects: Vec<MarkingEffect>,
    /// The listing to hand to the next screen; with it the orchestrator ends.
    pub hand_off: Option<FetchJournalsOutput>,
}

/// Where the orchestrator stands.
pub enum AppMarkingState {
    JournalReadyToQueue,
    JournalLoading,
    JournalLoaded,
    Marking { choices: ChoiceSelections },
    WaitingToGoBack { back: JournalTag },
    WaitingToReturn,
    Returning { task: Task<FetchJournalsOutput> },
}

pub ghost enum PhaseView {
    ReadyToQueue,
    Loading,
    Loaded,
    Marking(SelectionsView),
    WaitingToGoBack(TagView),
    WaitingToReturn,
    Returning(QueuedView),
}

impl View for AppMarkingState {
    type V = PhaseView;

    open spec fn view(&self) -> PhaseView {
        match *self {
            AppMarkingState::JournalReadyToQueue => PhaseView::ReadyToQueue,
            AppMarkingState::JournalLoading => PhaseView::Loading,
            AppMarkingState::JournalLoaded => PhaseView::Loaded,
            AppMarkingState::Marking { choices } => PhaseView::Marking(choices@),
            AppMarkingState::WaitingToGoBack { back } => PhaseView::WaitingToGoBack(back@),
            AppMarkingState::WaitingToReturn => PhaseView::WaitingToReturn,
            AppMarkingState::Returning { task } => PhaseView::Returning(
                task_view(task),
            ),
        }
    }
}

/// The orchestrator as a value.
pub ghost struct MarkingView {
    pub globals: GlobalsView,
    pub auth: (Seq<char>, Seq<char>),
    pub assignment: Seq<char>,
    pub store: StoreView,
    pub live: TagView,
    pub opened: Opened,
    pub pane: Option<Seq<char>>,
    pub phase: PhaseView,
}

impl MarkingView {
    /// The store is in order; a submission that is shown or marked is
    /// loaded; the selections are in order; and the submission to go back to
    /// is in the store.
    pub open spec fn wf(self) -> bool {
        &&& self.store.wf()
        &&& (self.phase is Loaded || self.phase is Marking) ==> self.store.is_loaded(self.live)
        &&& (self.phase matches PhaseView::Marking(selections) ==> selections.wf())
        &&& (self.phase matches PhaseView::WaitingToGoBack(back) ==> self.store.tags.contains(back))
    }

    /// Where the orchestrator goes once the live submission is dealt with:
    /// to the next submission of the display order, with the countdown one
    /// lower; or, where the countdown has run out or there is no next
    /// submission, to wait for the queue before it returns to the list.
    pub open spec fn advanced(self) -> MarkingView {
        let opened = self.opened.spec_decremented();
        let at = self.store.tags.index_of(self.live);
        if opened.spec_exhausted() || at + 1 >= self.store.tags.len() {
            MarkingView { phase: PhaseView::WaitingToReturn, ..self }
        } else {
            MarkingView {
                phase: PhaseView::ReadyToQueue,
                live: self.store.tags[at + 1],
                opened,
                ..self
            }
        }
    }

    /// Where the orchestrator goes on "back": to wait for the queue before
    /// it returns to the submission that stands just before the live one, or
    /// nowhere if the live one is the first.
    pub open spec fn backed(self) -> MarkingView {
        let at = self.store.tags.index_of(self.live);
        if at >= 1 {
            MarkingView { phase: PhaseView::WaitingToGoBack(self.store.tags[at - 1]), ..self }
        } else {
            self
        }
    }
}

/// The selections after a command that moves the cursor or toggles.
pub open spec fn selections_after(selections: SelectionsView, command: MarkingCommand) -> SelectionsView {
    let count = selections.entries.len() as int;
    match command {
        MarkingCommand::CursorNext => if count == 0 {
            selections
        } else {
            SelectionsView { cursor: ((selections.cursor as int + 1) % count) as nat, ..selections }
        },
        MarkingCommand::CursorPrev => if count == 0 {
            selections
        } else {
            SelectionsView {
                cursor: ((selections.cursor as int + count - 1) % count) as nat,
                ..selections
            }
        },
        MarkingCommand::Toggle => if count == 0 {
            selections
        } else {
            SelectionsView {
                entries: toggled(selections.entries, selections.cursor as int),
                ..selections
            }
        },
        MarkingCommand::Hotkey(index) => if index < count {
            SelectionsView { entries: toggled(selections.entries, index as int), cursor: index as nat }
        } else {
            selections
        },
        _ => selections,
    }
}

/// The orchestrator of one marking session.
pub struct AppMarking {
    globals: Globals,
    auth: Authentication,
    assignment: String,
    journals: Journals,
    live_journal_tag: JournalTag,
    opened: Opened,
    tmux_side_pane: Option<TmuxPane>,
    state: AppMarkingState,
}

/// What a pane, or the lack of one, is as a value.
pub open spec fn pane_view(pane: Option<TmuxPane>) -> Option<Seq<char>> {
    match pane {
        Some(pane) => Some(pane@),
        None => None,
    }
}

impl View for AppMarking {
    type V = MarkingView;

    closed spec fn view(&self) -> MarkingView {
        MarkingView {
            globals: self.globals@,
            auth: self.auth@,
            assignment: self.assignment@,
            store: self.journals@,
            live: self.live_journal_tag@,
            opened: self.opened,
            pane: pane_view(self.tmux_side_pane),
            phase: self.state@,
        }
    }
}

impl AppMarking {
    /// An orchestrator that is about to load the submission under
    /// `live_journal_tag`.
    pub fn new(
        globals: Globals,
        auth: Authentication,
        assignment: String,
        journals: Journals,
        live_journal_tag: JournalTag,
        opened: Opened,
        tmux_side_pane: Option<TmuxPane>,
    ) -> (app: Self)
        requires
            journals@.wf(),
        ensures
            app@.wf(),
            app@ == (MarkingView {
                globals: globals@,
                auth: auth@,
                assignment: assignment@,
                store: journals@,
                live: live_journal_tag@,
                opened,
                pane: pane_view(tmux_side_pane),
                phase: PhaseView::ReadyToQueue,
            }),
    {
        AppMarking {
            globals,
            auth,
            assignment,
            journals,
            live_journal_tag,
            opened,
            tmux_side_pane,
            state: AppMarkingState::JournalReadyToQueue,
        }
    }

    pub fn globals(&self) -> (globals: &Globals)
        ensures
            globals@ == self@.globals,
    {
        &self.globals
    }

    pub fn auth(&self) -> (auth: &Authentication)
        ensures
            auth@ == self@.auth,
    {
        &self.auth
    }

    pub fn assignment(&self) -> (assignment: &str)
        ensures
            assignment@ == self@.assignment,
    {
        self.assignment.as_str()
    }

    pub fn journals(&self) -> (journals: &Journals)
        ensures
            journals@ == self@.store,
    {
        &self.journals
    }

    pub fn live_journal_tag(&self) -> (tag: &JournalTag)
        ensures
            tag@ == self@.live,
    {
        &self.live_journal_tag
    }

    pub fn opened(&self) -> (opened: Opened)
        ensures
            opened == self@.opened,
    {
        self.opened
    }

    pub fn state(&self) -> (state: &AppMarkingState)
        ensures
            state@ == self@.phase,
    {
        &self.state
    }

    pub fn side_pane(&self) -> (pane: &Option<TmuxPane>)
        ensures
            pane_view(*pane) == self@.pane,
    {
        &self.tmux_side_pane
    }

    /// Remembers the pane that the viewer was started in, so that the next
    /// submission is shown in the same pane.
    pub fn set_side_pane(&mut self, pane: TmuxPane)
        ensures
            final(self)@ == (MarkingView { pane: Some(pane@), ..old(self)@ }),
    {
        self.tmux_side_pane = Some(pane);
    }

    fn is_marking(&self) -> (marking: bool)
        ensures
            marking == (self@.phase is Marking),
    {
        match &self.state {
            AppMarkingState::Marking { .. } => true,
            _ => false,
        }
    }

    /// Leaves the live submission behind.
    fn advance(&mut self)
        requires
            old(self)@.wf(),
            old(self)@.store.tags.contains(old(self)@.live),
        ensures
            final(self)@.wf(),
            final(self)@ == old(self)@.advanced(),
    {
        let opened = self.opened.decremented();
        let next: Option<usize> = match self.journals.position(&self.live_journal_tag) {
            Some(at) => {
                proof {
                    self@.store.lemma_index_of(self@.live, at as int);
                }
                if self.journals.len() - at > 1 {
                    Some(at + 1)
                } else {
                    None
                }
            },
            None => None,
        };
        match next {
            Some(at) => {
                if opened.is_exhausted() {
                    self.state = AppMarkingState::WaitingToReturn;
                } else {
                    self.live_journal_tag = self.journals.tag_at(at).clone();
                    self.opened = opened;
                    self.state = AppMarkingState::JournalReadyToQueue;
                }
            },
            None => {
                self.state = AppMarkingState::WaitingToReturn;
            },
        }
    }
}

/// An outcome with its effects as a sequence.
pub open spec fn effects_of(outcome: Result<Vec<MarkingEffect>, MarkingError>) -> Result<
    Seq<MarkingEffect>,
    MarkingError,
> {
    match outcome {
        Ok(effects) => Ok(effects@),
        Err(error) => Err(error),
    }
}

/// Whether `job` is the marking of the live submission of `before` with
/// `selections`: addressed to that submission, with the operator's
/// credentials, for the first marking file under the configured name, with
/// the mark and the justification that the selections give.
pub open spec fn is_marking_of(job: MarkJob, before: MarkingView, selections: SelectionsView) -> bool {
    let files = before.store.database()[before.live].spec_data()->0.spec_marking_files();
    &&& job.tag@ == before.live
    &&& job.endpoint@ == submission_url(before.globals.cgi_endpoint, before.live)
    &&& job.auth@ == before.auth
    &&& job.imark_id == files[first_file_named(files, before.globals.mark_name)]@.imark_id
    &&& job.mark_name@ == before.globals.mark_name
    &&& job.mark@ == awarded_mark(selections.entries)
    &&& line_views(job.lines@) == justification_lines(selections.entries)
}

/// What "submit" does while `selections` are marked: the marking joins the
/// queue as a task that must complete, the job is handed out, and the
/// orchestrator leaves the submission behind. Where the submission holds no
/// marking file under the configured name, nothing is queued, the error says
/// so, and the orchestrator waits to return to the list.
pub open spec fn submitted(
    before: MarkingView,
    selections: SelectionsView,
    after: MarkingView,
    outcome: Result<Seq<MarkingEffect>, MarkingError>,
) -> bool {
    let files = before.store.database()[before.live].spec_data()->0.spec_marking_files();
    match outcome {
        Ok(effects) => {
            &&& has_file_named(files, before.globals.mark_name)
            &&& effects.len() == 1
            &&& effects[0] matches MarkingEffect::Mark(job)
            &&& is_marking_of(job, before, selections)
            &&& after == (MarkingView {
                store: StoreView {
                    queue: before.store.queue.push(
                        QueuedView::fresh(true),
                    ),
                    ..before.store
                },
                ..before
            }).advanced()
        },
        Err(MarkingError::Store(StoreError::NoMarkFile(_))) => {
            &&& !has_file_named(files, before.globals.mark_name)
            &&& after == (MarkingView { phase: PhaseView::WaitingToReturn, ..before })
        },
        Err(_) => false,
    }
}

/// What a command does. While a submission is marked, the cursor commands
/// and the hotkeys act on the selections, "quit" waits to return to the
/// list, "back" and "skip" navigate, and "submit" queues the mark. In every
/// other phase a command does nothing.
pub open spec fn handled(
    before: MarkingView,
    command: MarkingCommand,
    after: MarkingView,
    outcome: Result<Seq<MarkingEffect>, MarkingError>,
) -> bool {
    match before.phase {
        PhaseView::Marking(selections) => match command {
            MarkingCommand::Submit => submitted(before, selections, after, outcome),
            _ => {
                &&& outcome matches Ok(effects)
                &&& effects.len() == 0
                &&& after == match command {
                    MarkingCommand::Quit => MarkingView {
                        phase: PhaseView::WaitingToReturn,
                        ..before
                    },
                    MarkingCommand::Back => before.backed(),
                    MarkingCommand::Skip => before.advanced(),
                    _ => MarkingView {
                        phase: PhaseView::Marking(selections_after(selections, command)),
                        ..before
                    },
                }
            },
        },
        _ => {
            &&& outcome matches Ok(effects)
            &&& effects.len() == 0
            &&& after == before
        },
    }
}

impl AppMarking {
    /// Carries out one command of the operator.
    pub fn handle(&mut self, command: MarkingCommand) -> (outcome: Result<
        Vec<MarkingEffect>,
        MarkingError,
    >)
        requires
            old(self)@.wf(),
        ensures
            final(self)@.wf(),
            handled(old(self)@, command, final(self)@, effects_of(outcome)),
    {
        let mut effects: Vec<MarkingEffect> = Vec::new();
        if !self.is_marking() {
            return Ok(effects);
        }
        let ghost before = self@;
        match command {
            MarkingCommand::CursorNext => {
                match &mut self.state {
                    AppMarkingState::Marking { choices } => {
                        choices.cursor_next();
                    },
                    _ => {},
                }
            },
            MarkingCommand::CursorPrev => {
                match &mut self.state {
                    AppMarkingState::Marking { choices } => {
                        choices.cursor_prev();
                    },
                    _ => {},
                }
            },
            MarkingCommand::Toggle => {
                match &mut self.state {
                    AppMarkingState::Marking { choices } => {
                        choices.toggle_selection();
                    },
                    _ => {},
                }
            },
            MarkingCommand::Hotkey(index) => {
                match &mut self.state {
                    AppMarkingState::Marking { choices } => {
                        if choices.try_cursor_set(index) {
                            choices.toggle_selection();
                        }
                    },
                    _ => {},
                }
            },
            MarkingCommand::Quit => {
                self.state = AppMarkingState::WaitingToReturn;
            },
            MarkingCommand::Back => {
                match self.journals.position(&self.live_journal_tag) {
                    Some(at) => {
                        proof {
                            before.store.lemma_index_of(before.live, at as int);
                        }
                        if at >= 1 {
                            let back = self.journals.tag_at(at - 1).clone();
                            proof {
                                assert(before.store.tags.contains(before.store.tags[at - 1]));
                            }
                            self.state = AppMarkingState::WaitingToGoBack { back };
                        }
                    },
                    None => {},
                }
            },
            MarkingCommand::Skip => {
                self.advance();
            },
            MarkingCommand::Submit => {
                let mut state = AppMarkingState::WaitingToReturn;
                std::mem::swap(&mut self.state, &mut state);
                match state {
                    AppMarkingState::Marking { choices } => {
                        let queued = self.journals.queue_mark(
                            self.live_journal_tag.clone(),
                            choices,
                            self.globals.cgi_endpoint(),
                            self.auth.clone(),
                            self.globals.mark_name(),
                        );
                        match queued {
                            Ok(job) => {
                                effects.push(MarkingEffect::Mark(job));
                                self.advance();
                            },
                            Err(refused) => {
                                return Err(MarkingError::Store(refused));
                            },
                        }
                    },
                    _ => {},
                }
            },
            MarkingCommand::Ignore => {},
        }
        Ok(effects)
    }
}

/// A task of the queue that may be abandoned and has not resolved.
pub open spec fn load_task() -> QueuedView {
    QueuedView::fresh(false)
}

/// Whether `job` is the load of the submission under `tag`, asked by the
/// orchestrator `before`.
pub open spec fn is_load_of(job: LoadJob, before: MarkingView, tag: TagView) -> bool {
    &&& job.tag@ == tag
    &&& job.already_loaded == before.store.is_loaded(tag)
    &&& job.endpoint@ == submission_url(before.globals.cgi_endpoint, tag)
    &&& job.auth@ == before.auth
    &&& job.mark_name@ == before.globals.mark_name
}

/// The tags to load ahead: those of the submissions at the places from
/// `from` up to, not including, `upto`, in display order.
pub open spec fn preload_targets(store: StoreView, from: int, upto: int) -> Seq<TagView> {
    if upto <= from {
        Seq::empty()
    } else {
        store.tags.subrange(from, upto)
    }
}

/// Where loading ahead stops: `preload` places behind `from`, or at the end
/// of the store if that comes first.
pub open spec fn preload_end(store: StoreView, from: int, preload: nat) -> int {
    if store.tags.len() - from < preload {
        store.tags.len() as int
    } else {
        from + preload
    }
}

/// What showing the live submission does: its files are to be exposed and
/// shown, with the pager's command over their names, in the pane that is
/// there or in a new one; a fresh cursor over the rubric is set up; and for
/// each of the submissions that follow, as many as are configured, a load is
/// asked for.
pub open spec fn shown(
    before: MarkingView,
    after: MarkingView,
    outcome: Result<Seq<MarkingEffect>, MarkingError>,
) -> bool {
    let data = before.store.database()[before.live].spec_data()->0;
    let from = before.store.tags.index_of(before.live) + 1;
    let targets = preload_targets(
        before.store,
        from,
        preload_end(before.store, from, before.globals.preload),
    );
    let command = with_names(before.globals.pager_command, exposed_files(data));
    &&& outcome matches Ok(effects)
    &&& effects.len() == 2 + targets.len()
    &&& effects[0] matches MarkingEffect::Expose(tag)
    &&& tag@ == before.live
    &&& effects[1] matches MarkingEffect::View(request)
    &&& match before.pane {
        Some(pane) => request matches ViewerRequest::Respawn { pane_id, command: asked }
            && pane_id@ == pane && asked@ == command,
        None => request matches ViewerRequest::Spawn { command: asked } && asked@ == command,
    }
    &&& forall|k: int|
        0 <= k < targets.len() ==> (#[trigger] effects[2 + k] matches MarkingEffect::Load(job)
            && is_load_of(job, before, targets[k]))
    &&& after == (MarkingView {
        phase: PhaseView::Marking(
            SelectionsView { entries: fresh_selections(before.globals.choices), cursor: 0 },
        ),
        store: StoreView {
            queue: before.store.queue + Seq::new(targets.len(), |k: int| load_task()),
            ..before.store
        },
        ..before
    })
}

/// What the orchestrator does on its own in one tick, from the state that
/// it is in. Before the live submission is loaded it asks once for the load
/// and then waits for it. Once loaded the submission is shown. While it is
/// marked nothing moves. Waiting to go back or to return ends when the queue
/// is empty: then the submission to go back to is unloaded and becomes the
/// live one, with the countdown one higher; or the listing is asked for.
pub open spec fn proceeded(
    before: MarkingView,
    after: MarkingView,
    outcome: Result<Seq<MarkingEffect>, MarkingError>,
) -> bool {
    match before.phase {
        PhaseView::ReadyToQueue => if before.store.is_loaded(before.live) {
            &&& outcome matches Ok(effects)
            &&& effects.len() == 0
            &&& after == (MarkingView { phase: PhaseView::Loaded, ..before })
        } else if !before.store.tags.contains(before.live) {
            &&& outcome matches Err(MarkingError::Store(StoreError::UnknownJournal(refused)))
            &&& refused@ == before.live
            &&& after == before
        } else {
            &&& outcome matches Ok(effects)
            &&& effects.len() == 1
            &&& effects[0] matches MarkingEffect::Load(job)
            &&& is_load_of(job, before, before.live)
            &&& after == (MarkingView {
                phase: PhaseView::Loading,
                store: StoreView { queue: before.store.queue.push(load_task()), ..before.store },
                ..before
            })
        },
        PhaseView::Loading => {
            &&& outcome matches Ok(effects)
            &&& effects.len() == 0
            &&& after == if before.store.is_loaded(before.live) {
                MarkingView { phase: PhaseView::Loaded, ..before }
            } else {
                before
            }
        },
        PhaseView::Loaded => shown(before, after, outcome),
        PhaseView::Marking(_) => {
            &&& outcome matches Ok(effects)
            &&& effects.len() == 0
            &&& after == before
        },
        PhaseView::WaitingToGoBack(back) => {
            &&& outcome matches Ok(effects)
            &&& effects.len() == 0
            &&& if before.store.queue.len() == 0 {
                &&& unloaded(before.store, back, after.store)
                &&& after == (MarkingView {
                    phase: PhaseView::ReadyToQueue,
                    live: back,
                    opened: before.opened.spec_incremented(),
                    store: after.store,
                    ..before
                })
            } else {
                after == before
            }
        },
        PhaseView::WaitingToReturn => if before.store.queue.len() == 0 {
            &&& outcome matches Ok(effects)
            &&& effects.len() == 1
            &&& effects[0] matches MarkingEffect::List(job)
            &&& job.endpoint@ == listing_url(before.globals.cgi_endpoint, before.assignment)
            &&& job.auth@ == before.auth
            &&& job.assignment@ == before.assignment
            &&& job.globals@ == before.globals
            &&& after == (MarkingView {
                phase: PhaseView::Returning(
                    QueuedView::fresh(before.globals.panic_on_drop),
                ),
                ..before
            })
        } else {
            &&& outcome matches Ok(effects)
            &&& effects.len() == 0
            &&& after == before
        },
        PhaseView::Returning(_) => {
            &&& outcome matches Ok(effects)
            &&& effects.len() == 0
            &&& after == before
        },
    }
}

impl AppMarking {
    fn is_live_loaded(&self) -> (loaded: bool)
        requires
            self@.store.wf(),
        ensures
            loaded == self@.store.is_loaded(self@.live),
    {
        match self.journals.try_get(&self.live_journal_tag) {
            Some(journal) => journal.is_loaded(),
            None => false,
        }
    }

    /// Asks for the live submission to be loaded.
    fn begin_load(&mut self) -> (outcome: Result<Vec<MarkingEffect>, MarkingError>)
        requires
            old(self)@.wf(),
            old(self)@.phase is ReadyToQueue,
            !old(self)@.store.is_loaded(old(self)@.live),
        ensures
            final(self)@.wf(),
            proceeded(old(self)@, final(self)@, effects_of(outcome)),
    {
        let mut effects: Vec<MarkingEffect> = Vec::new();
        let queued = self.journals.queue_load(
            self.live_journal_tag.clone(),
            self.globals.cgi_endpoint(),
            self.auth.clone(),
            self.globals.mark_name(),
        );
        match queued {
            Ok(job) => {
                effects.push(MarkingEffect::Load(job));
                self.state = AppMarkingState::JournalLoading;
                Ok(effects)
            },
            Err(refused) => Err(MarkingError::Store(refused)),
        }
    }

    /// Shows the live submission and loads ahead.
    fn show(&mut self) -> (outcome: Result<Vec<MarkingEffect>, MarkingError>)
        requires
            old(self)@.wf(),
            old(self)@.phase is Loaded,
        ensures
            final(self)@.wf(),
            proceeded(old(self)@, final(self)@, effects_of(outcome)),
    {
        let ghost before = self@;
        let mut effects: Vec<MarkingEffect> = Vec::new();
        let at: usize = match self.journals.position(&self.live_journal_tag) {
            Some(at) => at,
            None => {
                return Ok(effects);
            },
        };
        proof {
            before.store.lemma_index_of(before.live, at as int);
        }
        let command = match self.journals.journal_at(at).data() {
            Some(data) => viewer_command(self.globals.pager_command(), data),
            None => {
                return Ok(effects);
            },
        };
        effects.push(MarkingEffect::Expose(self.live_journal_tag.clone()));
        effects.push(MarkingEffect::View(viewer_request(&self.tmux_side_pane, command)));
        let count: usize = self.journals.len();
        let from: usize = at + 1;
        let upto: usize = if count - from < self.globals.preload() {
            count
        } else {
            from + self.globals.preload()
        };
        let mut place: usize = from;
        while place < upto
            invariant
                from <= place <= upto <= count,
                count == before.store.tags.len(),
                before.wf(),
                before.phase is Loaded,
                self@ == (MarkingView {
                    store: StoreView {
                        queue: before.store.queue + Seq::new(
                            preload_targets(before.store, from as int, place as int).len(),
                            |k: int| load_task(),
                        ),
                        ..before.store
                    },
                    ..before
                }),
                effects@.len() == 2 + preload_targets(before.store, from as int, place as int).len(),
                effects@[0] matches MarkingEffect::Expose(tag) && tag@ == before.live,
                effects@[1] matches MarkingEffect::View(request) && match before.pane {
                    Some(pane) => request matches ViewerRequest::Respawn { pane_id, command: asked }
                        && pane_id@ == pane && asked@ == with_names(
                        before.globals.pager_command,
                        exposed_files(before.store.database()[before.live].spec_data()->0),
                    ),
                    None => request matches ViewerRequest::Spawn { command: asked } && asked@
                        == with_names(
                        before.globals.pager_command,
                        exposed_files(before.store.database()[before.live].spec_data()->0),
                    ),
                },
                forall|k: int|
                    0 <= k < preload_targets(before.store, from as int, place as int).len() ==> (
                    #[trigger] effects@[2 + k] matches MarkingEffect::Load(job) && is_load_of(
                        job,
                        before,
                        preload_targets(before.store, from as int, place as int)[k],
                    )),
            decreases upto - place,
        {
            let ghost entering = self@;
            let ghost done = preload_targets(before.store, from as int, place as int);
            let tag = self.journals.tag_at(place).clone();
            proof {
                entering.store.lemma_index_of(tag@, place as int);
            }
            let queued = self.journals.queue_load(
                tag,
                self.globals.cgi_endpoint(),
                self.auth.clone(),
                self.globals.mark_name(),
            );
            match queued {
                Ok(job) => {
                    effects.push(MarkingEffect::Load(job));
                    proof {
                        let grown = preload_targets(before.store, from as int, place + 1);
                        assert(grown =~= done.push(before.store.tags[place as int]));
                        assert(self@.store.queue =~= before.store.queue + Seq::new(
                            grown.len(),
                            |k: int| load_task(),
                        ));
                    }
                },
                Err(_) => {},
            }
            place = place + 1;
        }
        self.state = AppMarkingState::Marking { choices: ChoiceSelections::new(self.globals.choices()) };
        Ok(effects)
    }

    /// Unloads the submission to go back to and makes it the live one.
    fn go_back(&mut self) -> (outcome: Result<Vec<MarkingEffect>, MarkingError>)
        requires
            old(self)@.wf(),
            old(self)@.phase is WaitingToGoBack,
            old(self)@.store.queue.len() == 0,
        ensures
            final(self)@.wf(),
            proceeded(old(self)@, final(self)@, effects_of(outcome)),
    {
        let mut state = AppMarkingState::JournalReadyToQueue;
        std::mem::swap(&mut self.state, &mut state);
        match state {
            AppMarkingState::WaitingToGoBack { back } => {
                self.journals.unload(&back);
                self.live_journal_tag = back;
                self.opened = self.opened.incremented();
            },
            _ => {},
        }
        Ok(Vec::new())
    }

    /// Asks for the listing.
    fn begin_return(&mut self) -> (outcome: Result<Vec<MarkingEffect>, MarkingError>)
        requires
            old(self)@.wf(),
            old(self)@.phase is WaitingToReturn,
            old(self)@.store.queue.len() == 0,
        ensures
            final(self)@.wf(),
            proceeded(old(self)@, final(self)@, effects_of(outcome)),
    {
        let mut effects: Vec<MarkingEffect> = Vec::new();
        let (task, reply) = Task::new(self.globals.panic_on_drop());
        let mut assignment = String::new();
        assignment.append(self.assignment.as_str());
        assert(assignment@ =~= self@.assignment);
        effects.push(
            MarkingEffect::List(
                ListJob {
                    endpoint: listing_endpoint(self.globals.cgi_endpoint(), self.assignment.as_str()),
                    auth: self.auth.clone(),
                    assignment,
                    globals: self.globals.clone(),
                    reply,
                },
            ),
        );
        self.state = AppMarkingState::Returning { task };
        Ok(effects)
    }

    /// Does what the orchestrator does on its own in one tick.
    pub fn proceed(&mut self) -> (outcome: Result<Vec<MarkingEffect>, MarkingError>)
        requires
            old(self)@.wf(),
        ensures
            final(self)@.wf(),
            proceeded(old(self)@, final(self)@, effects_of(outcome)),
    {
        match &self.state {
            AppMarkingState::JournalReadyToQueue => {
                if self.is_live_loaded() {
                    self.state = AppMarkingState::JournalLoaded;
                    Ok(Vec::new())
                } else {
                    self.begin_load()
                }
            },
            AppMarkingState::JournalLoading => {
                if self.is_live_loaded() {
                    self.state = AppMarkingState::JournalLoaded;
                }
                Ok(Vec::new())
            },
            AppMarkingState::JournalLoaded => self.show(),
            AppMarkingState::Marking { .. } => Ok(Vec::new()),
            AppMarkingState::WaitingToGoBack { .. } => {
                if self.journals.queue_size() == 0 {
                    self.go_back()
                } else {
                    Ok(Vec::new())
                }
            },
            AppMarkingState::WaitingToReturn => {
                if self.journals.queue_size() == 0 {
                    self.begin_return()
                } else {
                    Ok(Vec::new())
                }
            },
            AppMarkingState::Returning { .. } => Ok(Vec::new()),
        }
    }
}

/// How a scan of the queue may change the store: tags and summaries stay,
/// journals stay or go from unloaded to loaded, and the queue does not
/// grow.
pub open spec fn scanned(before: StoreView, after: StoreView) -> bool {
    &&& after.wf()
    &&& after.tags == before.tags
    &&& after.listed == before.listed
    &&& after.globals == before.globals
    &&& after.journals.len() == before.journals.len()
    &&& after.queue.len() <= before.queue.len()
    &&& forall|i: int|
        0 <= i < before.journals.len() ==> evolved(before.journals[i], #[trigger] after.journals[i])
}

/// The command that a tick carries out: the one that the key asks for, or
/// none.
pub open spec fn command_in(key: Option<MarkingKey>) -> MarkingCommand {
    match key {
        Some(key) => command_of(key),
        None => MarkingCommand::Ignore,
    }
}

/// What a tick does while the listing is awaited: it polls the listing's
/// task once. A listing that has arrived is handed off.
pub open spec fn awaited(before: MarkingView, after: MarkingView, outcome: Result<Tick, MarkingError>) -> bool {
    &&& before.phase matches PhaseView::Returning(task)
    &&& match outcome {
        Ok(tick) => {
            &&& !task.resolved
            &&& tick.effects@.len() == 0
            &&& after == (MarkingView {
                phase: PhaseView::Returning(
                    QueuedView { resolved: tick.hand_off is Some, holding: false, ..task },
                ),
                ..before
            })
        },
        Err(MarkingError::Task(_)) => after == (MarkingView {
            phase: PhaseView::Returning(
                QueuedView { resolved: true, holding: task.resolved && task.holding, ..task },
            ),
            ..before
        }),
        Err(_) => false,
    }
}

/// What a tick does in every other phase, by way of the store as the scan
/// of the queue left it (`resumed`) and the state after the orchestrator's own step
/// (`mid`). First the queue is scanned, and a failure found there ends the
/// tick. Then the orchestrator takes its own step, and then it carries out
/// the command. The effects of the two are returned in that order, the first
/// `split` of them from the orchestrator's own step. Where the command is
/// refused, the effects of the step before it (`dropped`) are not returned.
pub open spec fn ticked_through(
    before: MarkingView,
    key: Option<MarkingKey>,
    resumed: StoreView,
    mid: MarkingView,
    split: int,
    dropped: Seq<MarkingEffect>,
    after: MarkingView,
    outcome: Result<Tick, MarkingError>,
) -> bool {
    let start = MarkingView { store: resumed, ..before };
    &&& scanned(before.store, resumed)
    &&& scan_led(
        before.store,
        resumed,
        match outcome {
            Err(MarkingError::Task(failure)) => Some(failure),
            _ => None,
        },
    )
    &&& match outcome {
        Ok(tick) => {
            &&& tick.hand_off is None
            &&& 0 <= split <= tick.effects@.len()
            &&& proceeded(start, mid, Ok(tick.effects@.take(split)))
            &&& handled(mid, command_in(key), after, Ok(tick.effects@.skip(split)))
        },
        Err(MarkingError::Task(_)) => after == start && resumed.queue.len() < before.store.queue.len(),
        Err(error) => {
            ||| proceeded(start, after, Err(error))
            ||| proceeded(start, mid, Ok(dropped)) && handled(mid, command_in(key), after, Err(error))
        },
    }
}

/// What one tick does.
pub open spec fn ticked(
    before: MarkingView,
    key: Option<MarkingKey>,
    after: MarkingView,
    outcome: Result<Tick, MarkingError>,
) -> bool {
    if before.phase is Returning {
        awaited(before, after, outcome)
    } else {
        exists|resumed: StoreView, mid: MarkingView, split: int, dropped: Seq<MarkingEffect>|
            ticked_through(before, key, resumed, mid, split, dropped, after, outcome)
    }
}

impl AppMarking {
    /// Polls the listing's task.
    fn await_listing(&mut self) -> (outcome: Result<Tick, MarkingError>)
        requires
            old(self)@.wf(),
            old(self)@.phase is Returning,
        ensures
            final(self)@.wf(),
            awaited(old(self)@, final(self)@, outcome),
    {
        match &mut self.state {
            AppMarkingState::Returning { task } => {
                match task.poll() {
                    Ok(hand_off) => Ok(Tick { effects: Vec::new(), hand_off }),
                    Err(failure) => Err(MarkingError::Task(failure)),
                }
            },
            _ => Ok(Tick { effects: Vec::new(), hand_off: None }),
        }
    }

    /// One tick of the orchestrator, with the key that the operator pressed
    /// since the last one, if any.
    pub fn tick(&mut self, key: Option<MarkingKey>) -> (outcome: Result<Tick, MarkingError>)
        requires
            old(self)@.wf(),
        ensures
            final(self)@.wf(),
            ticked(old(self)@, key, final(self)@, outcome),
    {
        let returning = match &self.state {
            AppMarkingState::Returning { .. } => true,
            _ => false,
        };
        if returning {
            return self.await_listing();
        }
        let ghost before = self@;
        let scan = self.journals.scan_queue();
        let ghost resumed = self@.store;
        let ghost start = self@;
        match scan {
            Ok(_) => {},
            Err(failure) => {
                let outcome = Err(MarkingError::Task(failure));
                proof {
                    assert(ticked_through(
                        before,
                        key,
                        resumed,
                        start,
                        0,
                        Seq::empty(),
                        self@,
                        outcome,
                    ));
                }
                return outcome;
            },
        }
        let mut effects = match self.proceed() {
            Ok(effects) => effects,
            Err(error) => {
                let outcome = Err(error);
                proof {
                    assert(ticked_through(
                        before,
                        key,
                        resumed,
                        start,
                        0,
                        Seq::empty(),
                        self@,
                        outcome,
                    ));
                }
                return outcome;
            },
        };
        let ghost mid = self@;
        let ghost first = effects@;
        let command = match key {
            Some(key) => command_for(key),
            None => MarkingCommand::Ignore,
        };
        match self.handle(command) {
            Ok(more) => {
                let mut more = more;
                let ghost second = more@;
                effects.append(&mut more);
                let outcome = Ok(Tick { effects, hand_off: None });
                proof {
                    let split = first.len() as int;
                    assert(effects@.take(split) =~= first);
                    assert(effects@.skip(split) =~= second);
                    assert(ticked_through(before, key, resumed, mid, split, first, self@, outcome));
                }
                outcome
            },
            Err(error) => {
                let outcome = Err(error);
                proof {
                    assert(ticked_through(before, key, resumed, mid, 0, first, self@, outcome));
                }
                outcome
            },
        }
    }

    /// One step of the drain before the process ends: one scan of the
    /// store's queue, and whether that left it empty. A failure is the
    /// scan's. The caller repeats the step until the queue is empty, so that
    /// no task that must complete is abandoned.
    pub fn quit(&mut self) -> (drained: Result<bool, MarkingError>)
        requires
            old(self)@.wf(),
        ensures
            final(self)@.wf(),
            final(self)@ == (MarkingView { store: final(self)@.store, ..old(self)@ }),
            scanned(old(self)@.store, final(self)@.store),
            scan_led(
                old(self)@.store,
                final(self)@.store,
                match drained {
                    Err(MarkingError::Task(failure)) => Some(failure),
                    _ => None,
                },
            ),
            match drained {
                Ok(done) => done == (final(self)@.store.queue.len() == 0),
                Err(MarkingError::Task(_)) => final(self)@.store.queue.len() < old(self)@.store.queue.len(),
                Err(_) => false,
            },
    {
        let ghost before = self@;
        let scan = self.journals.scan_queue();
        proof {
            let after = self@;
            assert(forall|i: int|
                0 <= i < before.store.journals.len() && before.store.journals[i] is Loaded
                    ==> #[trigger] after.store.journals[i] is Loaded);
        }
        match scan {
            Ok(left) => Ok(left == 0),
            Err(failure) => Err(MarkingError::Task(failure)),
        }
    }
}

/// Whether the listing that the orchestrator awaits is work that must
/// complete and may still be under way.
pub open spec fn awaits_work(phase: PhaseView) -> bool {
    phase matches PhaseView::Returning(task) && task.outstanding()
}

/// Whether `after` is the phase `before` after a look at the channel of the
/// listing, where one is awaited.
pub open spec fn phase_looked_at(before: PhaseView, after: PhaseView) -> bool {
    match before {
        PhaseView::Returning(task) => after matches PhaseView::Returning(looked)
            && task.looked_at(looked),
        _ => after == before,
    }
}

impl AppMarking {
    /// Whether dropping the orchestrator now would lose work that must
    /// complete: a queued task of the store, or the listing that is awaited.
    /// `unwinding` says that the thread is already panicking: then nothing is
    /// lost that matters, and the orchestrator stays as it is. Else its
    /// tasks look at their channels, the store's first, up to the first whose
    /// work may still be under way. To drop the orchestrator is fatal exactly
    /// if there is such a task.
    pub fn abandoning(&mut self, unwinding: bool) -> (fatal: bool)
        requires
            old(self)@.wf(),
        ensures
            final(self)@.wf(),
            final(self)@ == (MarkingView {
                store: final(self)@.store,
                phase: final(self)@.phase,
                ..old(self)@
            }),
            store_looked_at(old(self)@.store, final(self)@.store),
            phase_looked_at(old(self)@.phase, final(self)@.phase),
            unwinding ==> final(self)@ == old(self)@,
            fatal == (!unwinding && (holds_work(final(self)@.store.queue) || awaits_work(
                final(self)@.phase,
            ))),
    {
        let ghost before = self@;
        if self.journals.abandoning(unwinding) {
            return true;
        }
        proof {
            assert(self@.wf()) by {
                assert(self@.store.tags == before.store.tags);
                assert(self@.store.journals == before.store.journals);
            }
        }
        match &mut self.state {
            AppMarkingState::Returning { task } => task.abandoning(unwinding),
            _ => false,
        }
    }
}

} // verus!
