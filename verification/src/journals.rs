//! The journal store: every submission of the session under its tag, in a
//! display order that is fixed when a submission is listed, with the queue
//! of background tasks that work on them.

use vstd::prelude::*;
use vstd::string::StringExecFns;
use crate::amount::Mark;
use crate::choice::{awarded_mark, justification_lines, line_views, ChoiceSelections};
use crate::imark::{
    first_file_named, has_file_named, lemma_first_file_named, lemma_meta_order, mark_view,
    meta_precedes, Authentication, Globals, GlobalsView, Journal, JournalData, JournalMeta,
    JournalTag, LoadedJournal, MetaView, TagView, UnloadedJournal,
};
use crate::task::{Task, TaskError};

verus! {

/// What a finished load brings: the files of one submission and the mark
/// that the backend holds for it.
pub struct LoadedSubmission {
    pub tag: JournalTag,
    pub data: JournalData,
    pub mark: Option<Mark>,
}

/// What a background task of the store reports when it is done.
pub enum Completion {
    /// A submission was fetched.
    Loaded(LoadedSubmission),
    /// A load found its submission in memory already and fetched nothing.
    AlreadyLoaded,
    /// A mark was written to the backend.
    Marked,
}

/// Why the store refused a request.
#[derive(Debug)]
pub enum StoreError {
    /// The tag was never inserted.
    UnknownJournal(JournalTag),
    /// The tag is in the store already.
    DuplicateJournal(JournalTag),
    /// The submission's files are not in memory.
    NotLoaded(JournalTag),
    /// The loaded submission has no file to write feedback into.
    NoMarkFile(JournalTag),
}

/// A queued task as a value: whether it must complete, whether a poll has
/// already returned its result or failure, and what a look before a drop
/// has found: the channel closed, or a result, which the handle then holds.
pub ghost struct QueuedView {
    pub must_complete: bool,
    pub resolved: bool,
    pub closed: bool,
    pub holding: bool,
}

/// A task as the store and the screens know it.
pub open spec fn task_view<T>(task: Task<T>) -> QueuedView {
    QueuedView {
        must_complete: task.must_complete(),
        resolved: task.resolved(),
        closed: task.seen_closed(),
        holding: task.held_result() is Some,
    }
}

impl QueuedView {
    /// A task that was just made.
    pub open spec fn fresh(must_complete: bool) -> QueuedView {
        QueuedView { must_complete, resolved: false, closed: false, holding: false }
    }

    /// Whether the task is work that must complete and may still be under
    /// way: no poll has returned its result or failure, its channel was not
    /// seen closed, and its handle holds no result.
    pub open spec fn outstanding(self) -> bool {
        self.must_complete && !self.resolved && !self.closed && !self.holding
    }

    /// Whether `after` is the same queued task after a look at its channel,
    /// of which it may now be known that it is closed or that it has brought
    /// a result.
    pub open spec fn looked_at(self, after: QueuedView) -> bool {
        &&& after.must_complete == self.must_complete
        &&& after.resolved == self.resolved
        &&& self.closed ==> after.closed
        &&& self.holding ==> after.holding
    }
}

/// Whether one of the tasks of `queue` is work that must complete and may
/// still be under way.
pub open spec fn holds_work(queue: Seq<QueuedView>) -> bool {
    exists|i: int| 0 <= i < queue.len() && (#[trigger] queue[i]).outstanding()
}

/// Whether `after` is the queue `before` after a look at the channels of
/// some of its tasks.
pub open spec fn queue_looked_at(before: Seq<QueuedView>, after: Seq<QueuedView>) -> bool {
    &&& after.len() == before.len()
    &&& forall|i: int| 0 <= i < before.len() ==> before[i].looked_at(#[trigger] after[i])
}

/// Whether `after` is the store `before` after a look at the channels of
/// some of its queued tasks: nothing but what is known of those channels
/// differs.
pub open spec fn store_looked_at(before: StoreView, after: StoreView) -> bool {
    &&& after == (StoreView { queue: after.queue, ..before })
    &&& queue_looked_at(before.queue, after.queue)
}

/// The store as a value: tags, the summaries they were listed with and the
/// journals, all three in display order, then the queued tasks and the
/// settings.
pub ghost struct StoreView {
    pub tags: Seq<TagView>,
    pub listed: Seq<MetaView>,
    pub journals: Seq<Journal>,
    pub queue: Seq<QueuedView>,
    pub globals: GlobalsView,
}

/// Whether no summary comes before one that stands earlier in `listed`.
pub open spec fn sorted(listed: Seq<MetaView>) -> bool {
    forall|i: int, j: int|
        0 <= i < j < listed.len() ==> !meta_precedes(#[trigger] listed[j], #[trigger] listed[i])
}

/// Where a summary goes in a sorted list: behind everything that it does not
/// come before.
pub open spec fn insertion_point(listed: Seq<MetaView>, meta: MetaView) -> int
    decreases listed.len(),
{
    if listed.len() == 0 {
        0
    } else if meta_precedes(meta, listed.last()) {
        insertion_point(listed.drop_last(), meta)
    } else {
        listed.len() as int
    }
}

impl StoreView {
    /// One summary and one journal for each tag, no tag twice, the
    /// summaries in display order, and no task in the queue that has
    /// resolved.
    pub open spec fn wf(self) -> bool {
        &&& self.listed.len() == self.tags.len()
        &&& self.journals.len() == self.tags.len()
        &&& self.tags.no_duplicates()
        &&& sorted(self.listed)
        &&& forall|i: int| 0 <= i < self.queue.len() ==> !(#[trigger] self.queue[i]).resolved
    }

    /// The ordering list: each tag with the summary it was listed with.
    pub open spec fn ordering(self) -> Seq<(TagView, MetaView)> {
        Seq::new(self.tags.len(), |i: int| (self.tags[i], self.listed[i]))
    }

    /// The map from tag to journal.
    pub open spec fn database(self) -> Map<TagView, Journal> {
        Map::new(|tag: TagView| self.tags.contains(tag), |tag: TagView| self.journals[self.tags.index_of(tag)])
    }

    /// Whether the submission under `tag` has its files in memory.
    pub open spec fn is_loaded(self, tag: TagView) -> bool {
        self.tags.contains(tag) && self.journals[self.tags.index_of(tag)] is Loaded
    }
}

struct Entry {
    tag: JournalTag,
    listed: JournalMeta,
    journal: Journal,
}

/// The journal store.
pub struct Journals {
    entries: Vec<Entry>,
    queue: Vec<Task<Completion>>,
    globals: Globals,
}

impl View for Journals {
    type V = StoreView;

    closed spec fn view(&self) -> StoreView {
        StoreView {
            tags: Seq::new(self.entries@.len(), |i: int| self.entries@[i].tag@),
            listed: Seq::new(self.entries@.len(), |i: int| self.entries@[i].listed@),
            journals: Seq::new(self.entries@.len(), |i: int| self.entries@[i].journal),
            queue: Seq::new(self.queue@.len(), |i: int| task_view(self.queue@[i])),
            globals: self.globals@,
        }
    }
}

/// A binary search's answer is the insertion point.
proof fn lemma_insertion_point(listed: Seq<MetaView>, meta: MetaView, at: int)
    requires
        0 <= at <= listed.len(),
        forall|i: int| 0 <= i < at ==> !meta_precedes(meta, #[trigger] listed[i]),
        forall|i: int| at <= i < listed.len() ==> meta_precedes(meta, #[trigger] listed[i]),
    ensures
        insertion_point(listed, meta) == at,
    decreases listed.len(),
{
    if listed.len() > 0 {
        if at < listed.len() {
            assert(meta_precedes(meta, listed[listed.len() - 1]));
            lemma_insertion_point(listed.drop_last(), meta, at);
        } else {
            assert(!meta_precedes(meta, listed[listed.len() - 1]));
        }
    }
}

/// A sorted list stays sorted when a summary goes in at its insertion point.
pub proof fn lemma_insert_keeps_sorted(listed: Seq<MetaView>, meta: MetaView)
    requires
        sorted(listed),
    ensures
        0 <= insertion_point(listed, meta) <= listed.len(),
        sorted(listed.insert(insertion_point(listed, meta), meta)),
        forall|i: int|
            0 <= i < insertion_point(listed, meta) ==> !meta_precedes(meta, #[trigger] listed[i]),
        forall|i: int|
            insertion_point(listed, meta) <= i < listed.len() ==> meta_precedes(
                meta,
                #[trigger] listed[i],
            ),
    decreases listed.len(),
{
    let at = insertion_point(listed, meta);
    if listed.len() > 0 {
        let front = listed.drop_last();
        assert(sorted(front)) by {
            assert forall|i: int, j: int| 0 <= i < j < front.len() implies !meta_precedes(
                #[trigger] front[j],
                #[trigger] front[i],
            ) by {
                assert(front[j] == listed[j] && front[i] == listed[i]);
            }
        }
        lemma_insert_keeps_sorted(front, meta);
        if meta_precedes(meta, listed.last()) {
            assert forall|i: int| at <= i < listed.len() implies meta_precedes(
                meta,
                #[trigger] listed[i],
            ) by {
                if i < front.len() {
                    assert(front[i] == listed[i]);
                }
            }
            assert forall|i: int| 0 <= i < at implies !meta_precedes(meta, #[trigger] listed[i]) by {
                assert(front[i] == listed[i]);
            }
        } else {
            assert forall|i: int| 0 <= i < at implies !meta_precedes(meta, #[trigger] listed[i]) by {
                lemma_meta_order(listed[i], listed.last(), meta);
            }
        }
    }
    let grown = listed.insert(at, meta);
    assert forall|i: int, j: int| 0 <= i < j < grown.len() implies !meta_precedes(
        #[trigger] grown[j],
        #[trigger] grown[i],
    ) by {
        if j == at {
            assert(grown[i] == listed[i]);
        } else if i == at {
            assert(grown[j] == listed[j - 1]);
            lemma_meta_order(meta, listed[j - 1], meta);
        } else {
            let a = if i < at {
                i
            } else {
                i - 1
            };
            let b = if j < at {
                j
            } else {
                j - 1
            };
            assert(grown[i] == listed[a] && grown[j] == listed[b]);
        }
    }
}

impl Default for Journals {
    fn default() -> (journals: Self)
        ensures
            journals@.wf(),
            journals@.tags.len() == 0,
            journals@.queue.len() == 0,
    {
        Journals { entries: Vec::new(), queue: Vec::new(), globals: Globals::default() }
    }
}

impl StoreView {
    /// Where no tag occurs twice, a tag is found where it stands.
    pub proof fn lemma_index_of(self, tag: TagView, at: int)
        requires
            self.tags.no_duplicates(),
            0 <= at < self.tags.len(),
            self.tags[at] == tag,
        ensures
            self.tags.contains(tag),
            self.tags.index_of(tag) == at,
    {
        let found = self.tags.index_of(tag);
        assert(0 <= found < self.tags.len() && self.tags[found] == tag);
    }

    /// The map and the ordering list have one entry for each tag, so they are
    /// of one size.
    pub proof fn lemma_database_size(self)
        requires
            self.wf(),
        ensures
            self.database().dom().finite(),
            self.database().dom().len() == self.ordering().len(),
    {
        vstd::seq_lib::seq_to_set_is_finite(self.tags);
        self.tags.unique_seq_to_set();
        assert(self.database().dom() =~= self.tags.to_set());
    }
}

impl Journals {
    /// An empty store.
    pub fn new(globals: Globals) -> (journals: Self)
        ensures
            journals@.wf(),
            journals@.tags.len() == 0,
            journals@.queue.len() == 0,
            journals@.globals == globals@,
    {
        Journals { entries: Vec::new(), queue: Vec::new(), globals }
    }

    /// How many submissions the store holds.
    pub fn len(&self) -> (len: usize)
        ensures
            len == self@.tags.len(),
    {
        self.entries.len()
    }

    /// How many background tasks are outstanding.
    pub fn queue_size(&self) -> (size: usize)
        ensures
            size == self@.queue.len(),
    {
        self.queue.len()
    }

    pub fn globals(&self) -> (globals: &Globals)
        ensures
            globals@ == self@.globals,
    {
        &self.globals
    }

    /// Where `tag` stands in the display order.
    pub fn position(&self, tag: &JournalTag) -> (found: Option<usize>)
        ensures
            match found {
                Some(at) => {
                    &&& at < self@.tags.len()
                    &&& self@.tags[at as int] == tag@
                    &&& forall|i: int| 0 <= i < at ==> self@.tags[i] != tag@
                },
                None => !self@.tags.contains(tag@),
            },
    {
        let mut index: usize = 0;
        while index < self.entries.len()
            invariant
                index <= self.entries@.len(),
                forall|i: int| 0 <= i < index ==> self@.tags[i] != tag@,
            decreases self.entries.len() - index,
        {
            if self.entries[index].tag == *tag {
                return Some(index);
            }
            index = index + 1;
        }
        None
    }

    /// The tag at place `at` of the display order.
    pub fn tag_at(&self, at: usize) -> (tag: &JournalTag)
        requires
            at < self@.tags.len(),
        ensures
            tag@ == self@.tags[at as int],
    {
        &self.entries[at].tag
    }

    /// The journal at place `at` of the display order.
    pub fn journal_at(&self, at: usize) -> (journal: &Journal)
        requires
            at < self@.tags.len(),
        ensures
            *journal == self@.journals[at as int],
    {
        &self.entries[at].journal
    }

    /// Lists a submission: it enters unloaded, at the place that its summary
    /// has in the display order. A tag that is in the store already is
    /// refused, and the store stays as it was.
    pub fn insert(&mut self, tag: JournalTag, meta: JournalMeta) -> (inserted: Result<(), StoreError>)
        requires
            old(self)@.wf(),
        ensures
            final(self)@.wf(),
            final(self)@.queue == old(self)@.queue,
            final(self)@.globals == old(self)@.globals,
            match inserted {
                Ok(()) => {
                    let at = insertion_point(old(self)@.listed, meta@);
                    &&& !old(self)@.tags.contains(tag@)
                    &&& 0 <= at <= old(self)@.tags.len()
                    &&& final(self)@.tags == old(self)@.tags.insert(at, tag@)
                    &&& final(self)@.listed == old(self)@.listed.insert(at, meta@)
                    &&& final(self)@.journals.len() == old(self)@.journals.len() + 1
                    &&& final(self)@.journals[at] is Unloaded
                    &&& final(self)@.journals[at].spec_meta() == meta
                    &&& final(self)@.journals.remove(at) == old(self)@.journals
                },
                Err(StoreError::DuplicateJournal(refused)) => {
                    &&& old(self)@.tags.contains(tag@)
                    &&& final(self)@ == old(self)@
                    &&& refused == tag
                },
                Err(_) => false,
            },
    {
        if self.position(&tag).is_some() {
            return Err(StoreError::DuplicateJournal(tag));
        }
        let ghost before = self@;
        let mut low: usize = 0;
        let mut high: usize = self.entries.len();
        while low < high
            invariant
                low <= high <= self.entries@.len(),
                self@ == before,
                before.wf(),
                forall|i: int| 0 <= i < low ==> !meta_precedes(meta@, #[trigger] before.listed[i]),
                forall|i: int|
                    high <= i < before.listed.len() ==> meta_precedes(
                        meta@,
                        #[trigger] before.listed[i],
                    ),
            decreases high - low,
        {
            let mid: usize = low + (high - low) / 2;
            if meta.precedes(&self.entries[mid].listed) {
                proof {
                    assert forall|i: int| mid <= i < before.listed.len() implies meta_precedes(
                        meta@,
                        #[trigger] before.listed[i],
                    ) by {
                        if i > mid {
                            lemma_meta_order(before.listed[mid as int], before.listed[i], meta@);
                            lemma_meta_order(meta@, before.listed[i], before.listed[mid as int]);
                        }
                    }
                }
                high = mid;
            } else {
                proof {
                    assert forall|i: int| 0 <= i < mid + 1 implies !meta_precedes(
                        meta@,
                        #[trigger] before.listed[i],
                    ) by {
                        if i < mid {
                            lemma_meta_order(before.listed[i], before.listed[mid as int], meta@);
                        }
                    }
                }
                low = mid + 1;
            }
        }
        proof {
            lemma_insertion_point(before.listed, meta@, low as int);
            lemma_insert_keeps_sorted(before.listed, meta@);
        }
        let journal = Journal::Unloaded(UnloadedJournal::new(meta.clone()));
        let ghost tag_view = tag@;
        self.entries.insert(low, Entry { tag, listed: meta, journal });
        proof {
            let at = low as int;
            assert(self@.tags =~= before.tags.insert(at, tag_view));
            assert(self@.listed =~= before.listed.insert(at, meta@));
            assert(self@.journals.remove(at) =~= before.journals);
            assert(self@.queue =~= before.queue);
            assert forall|i: int, j: int|
                0 <= i < self@.tags.len() && 0 <= j < self@.tags.len() && i != j implies self@.tags[i]
                != self@.tags[j] by {
                let a = if i < at {
                    i
                } else {
                    i - 1
                };
                let b = if j < at {
                    j
                } else {
                    j - 1
                };
                if i != at && j != at {
                    assert(self@.tags[i] == before.tags[a] && self@.tags[j] == before.tags[b]);
                } else if i == at {
                    assert(self@.tags[j] == before.tags[b]);
                    assert(before.tags.contains(before.tags[b]));
                } else {
                    assert(self@.tags[i] == before.tags[a]);
                    assert(before.tags.contains(before.tags[a]));
                }
            }
        }
        Ok(())
    }

    /// The journal under `tag`, if the tag was inserted. This never waits:
    /// the store alone owns its journals, so none is ever held elsewhere.
    pub fn try_get(&self, tag: &JournalTag) -> (journal: Option<&Journal>)
        requires
            self@.wf(),
        ensures
            match journal {
                Some(journal) => self@.tags.contains(tag@) && *journal == self@.database()[tag@],
                None => !self@.tags.contains(tag@),
            },
    {
        match self.position(tag) {
            Some(at) => {
                proof {
                    self@.lemma_index_of(tag@, at as int);
                }
                Some(&self.entries[at].journal)
            },
            None => None,
        }
    }

    /// The journal under `tag`, if the tag was inserted.
    pub fn get(&self, tag: &JournalTag) -> (journal: Option<&Journal>)
        requires
            self@.wf(),
        ensures
            match journal {
                Some(journal) => self@.tags.contains(tag@) && *journal == self@.database()[tag@],
                None => !self@.tags.contains(tag@),
            },
    {
        self.try_get(tag)
    }
}

/// The address of one submission at the backend.
pub open spec fn submission_url(cgi_endpoint: Seq<char>, tag: TagView) -> Seq<char> {
    cgi_endpoint + "/api/v1/assignments/"@ + tag.assignment + "/submissions/"@ + tag.group_id
        + "/"@ + tag.student_id + "/"@
}

/// The address of the submission under `tag` at the backend.
pub fn submission_endpoint(cgi_endpoint: &str, tag: &JournalTag) -> (url: String)
    ensures
        url@ == submission_url(cgi_endpoint@, tag@),
{
    let mut url = String::new();
    url.append(cgi_endpoint);
    url.append("/api/v1/assignments/");
    url.append(tag.assignment());
    url.append("/submissions/");
    url.append(tag.group_id());
    url.append("/");
    url.append(tag.student_id());
    url.append("/");
    proof {
        assert(url@ =~= submission_url(cgi_endpoint@, tag@));
    }
    url
}

/// The work that a load asks for: fetch the submission at `endpoint` with
/// `auth`, make sure a marking file named `mark_name` is among its files,
/// and report through `reply`. Where the submission was in memory already
/// there is nothing to fetch, and the job reports that at once.
pub struct LoadJob {
    pub tag: JournalTag,
    /// Whether the submission was in memory already when the load was asked
    /// for.
    pub already_loaded: bool,
    pub endpoint: String,
    pub auth: Authentication,
    pub mark_name: String,
    pub reply: tokio::sync::oneshot::Sender<Result<Completion, anyhow::Error>>,
}

/// The work that a marking asks for: write `mark`, with `lines` as its
/// justification, into the marking file `imark_id` of the submission at
/// `endpoint`, and report through `reply`.
pub struct MarkJob {
    pub tag: JournalTag,
    pub endpoint: String,
    pub auth: Authentication,
    pub imark_id: usize,
    pub mark_name: String,
    pub mark: Mark,
    pub lines: Vec<String>,
    pub reply: tokio::sync::oneshot::Sender<Result<Completion, anyhow::Error>>,
}

/// The journal that a finished load leaves in place of `before`: loaded with
/// `data`, under the summary that `before` had but for the awarded mark,
/// which is the backend's.
pub open spec fn is_loaded_from(after: Journal, before: Journal, data: JournalData, mark: Option<Mark>) -> bool {
    &&& after is Loaded
    &&& after.spec_data() == Some(data)
    &&& after.spec_meta()@ == (MetaView { mark: mark_view(mark), ..before.spec_meta()@ })
}

/// The journal that an unload leaves in place of `before`: unloaded, under
/// the same summary.
pub open spec fn is_unloaded_from(after: Journal, before: Journal) -> bool {
    &&& after is Unloaded
    &&& after.spec_meta() == before.spec_meta()
}

/// Whether `after` is `before` but for the journal under `tag`.
pub open spec fn same_but_for(before: StoreView, tag: TagView, after: StoreView) -> bool {
    &&& after.tags == before.tags
    &&& after.listed == before.listed
    &&& after.queue == before.queue
    &&& after.globals == before.globals
    &&& after.journals.len() == before.journals.len()
    &&& forall|i: int|
        0 <= i < before.tags.len() && before.tags[i] != tag ==> after.journals[i]
            == before.journals[i]
}

/// Whether `after` is `before` with the files of the submission under
/// `tag` dropped: its journal is unloaded under the same summary, and
/// nothing else differs. Where the submission was not loaded, or is not in
/// the store, nothing differs at all.
pub open spec fn unloaded(before: StoreView, tag: TagView, after: StoreView) -> bool {
    &&& same_but_for(before, tag, after)
    &&& before.tags.contains(tag) ==> is_unloaded_from(
        after.database()[tag],
        before.database()[tag],
    )
    &&& !before.is_loaded(tag) ==> after == before
}

/// Whether `after` is `before` with `completion` taken in. A load fills the
/// journal under its tag if that journal is in the store and not loaded; any
/// other completion leaves the store as it was.
pub open spec fn settled(before: StoreView, completion: Completion, after: StoreView) -> bool {
    match completion {
        Completion::Marked => after == before,
        Completion::AlreadyLoaded => after == before,
        Completion::Loaded(loaded) => if before.tags.contains(loaded.tag@) && !before.is_loaded(
            loaded.tag@,
        ) {
            &&& same_but_for(before, loaded.tag@, after)
            &&& is_loaded_from(
                after.database()[loaded.tag@],
                before.database()[loaded.tag@],
                loaded.data,
                loaded.mark,
            )
        } else {
            after == before
        },
    }
}

impl Journals {
    /// Drops the files of the submission under `tag` and keeps its summary.
    /// Of an unknown tag, or one that is not loaded, nothing changes.
    pub fn unload(&mut self, tag: &JournalTag)
        requires
            old(self)@.wf(),
        ensures
            final(self)@.wf(),
            unloaded(old(self)@, tag@, final(self)@),
    {
        let ghost before = self@;
        match self.position(tag) {
            Some(at) => {
                proof {
                    before.lemma_index_of(tag@, at as int);
                }
                if self.entries[at].journal.is_loaded() {
                    let meta = self.entries[at].journal.meta().clone();
                    self.entries[at].journal = Journal::Unloaded(UnloadedJournal::new(meta));
                    proof {
                        assert(self@.tags =~= before.tags);
                        assert(self@.listed =~= before.listed);
                        assert(self@.queue =~= before.queue);
                        self@.lemma_index_of(tag@, at as int);
                    }
                }
            },
            None => {},
        }
    }

    /// Takes in what a finished task reported. A load fills the journal
    /// under its tag if that journal is known and still unloaded; a load for
    /// a journal that is loaded already, or unknown, changes nothing, and
    /// neither does a finished marking.
    pub fn settle(&mut self, completion: Completion)
        requires
            old(self)@.wf(),
        ensures
            final(self)@.wf(),
            settled(old(self)@, completion, final(self)@),
    {
        let ghost before = self@;
        match completion {
            Completion::Marked => {},
            Completion::AlreadyLoaded => {},
            Completion::Loaded(loaded) => {
                match self.position(&loaded.tag) {
                    Some(at) => {
                        proof {
                            before.lemma_index_of(loaded.tag@, at as int);
                        }
                        if !self.entries[at].journal.is_loaded() {
                            let mut meta = self.entries[at].journal.meta().clone();
                            meta.set_mark(loaded.mark);
                            self.entries[at].journal = Journal::Loaded(
                                LoadedJournal::new(meta, loaded.data),
                            );
                            proof {
                                assert(self@.tags =~= before.tags);
                                assert(self@.listed =~= before.listed);
                                assert(self@.queue =~= before.queue);
                                self@.lemma_index_of(loaded.tag@, at as int);
                            }
                        }
                    },
                    None => {},
                }
            },
        }
    }

    /// Asks for the submission under `tag` to be loaded. For an unknown tag
    /// this fails. Else a task that may be abandoned joins the queue, and the
    /// job that resolves it is returned for the caller to run. The job says
    /// whether the submission is in memory already: then it fetches nothing.
    pub fn queue_load(
        &mut self,
        tag: JournalTag,
        cgi_endpoint: &str,
        auth: Authentication,
        mark_name: &str,
    ) -> (queued: Result<LoadJob, StoreError>)
        requires
            old(self)@.wf(),
        ensures
            final(self)@.wf(),
            final(self)@.tags == old(self)@.tags,
            final(self)@.listed == old(self)@.listed,
            final(self)@.journals == old(self)@.journals,
            final(self)@.globals == old(self)@.globals,
            match queued {
                Ok(job) => {
                    &&& old(self)@.tags.contains(tag@)
                    &&& final(self)@.queue == old(self)@.queue.push(QueuedView::fresh(false))
                    &&& job.tag == tag
                    &&& job.already_loaded == old(self)@.is_loaded(tag@)
                    &&& job.endpoint@ == submission_url(cgi_endpoint@, tag@)
                    &&& job.auth == auth
                    &&& job.mark_name@ == mark_name@
                },
                Err(StoreError::UnknownJournal(refused)) => {
                    &&& !old(self)@.tags.contains(tag@)
                    &&& final(self)@ == old(self)@
                    &&& refused == tag
                },
                Err(_) => false,
            },
    {
        let ghost before = self@;
        match self.position(&tag) {
            None => Err(StoreError::UnknownJournal(tag)),
            Some(at) => {
                proof {
                    before.lemma_index_of(tag@, at as int);
                }
                let already_loaded = self.entries[at].journal.is_loaded();
                let endpoint = submission_endpoint(cgi_endpoint, &tag);
                let mut name = String::new();
                name.append(mark_name);
                let (task, reply) = Task::new(false);
                self.queue.push(task);
                proof {
                    assert(self@.queue =~= before.queue.push(QueuedView::fresh(false)));
                    assert(self@.tags =~= before.tags);
                    assert(self@.listed =~= before.listed);
                    assert(self@.journals =~= before.journals);
                }
                Ok(LoadJob { tag, already_loaded, endpoint, auth, mark_name: name, reply })
            },
        }
    }

    /// Asks for the mark that `choices` give to be written for the submission
    /// under `tag`. The submission must be known, loaded, and hold a marking
    /// file named `mark_name`; each of these that fails has its error. Else a
    /// task that must complete joins the queue, and the job that resolves it
    /// is returned for the caller to run.
    pub fn queue_mark(
        &mut self,
        tag: JournalTag,
        choices: ChoiceSelections,
        cgi_endpoint: &str,
        auth: Authentication,
        mark_name: &str,
    ) -> (queued: Result<MarkJob, StoreError>)
        requires
            old(self)@.wf(),
        ensures
            final(self)@.wf(),
            final(self)@.tags == old(self)@.tags,
            final(self)@.listed == old(self)@.listed,
            final(self)@.journals == old(self)@.journals,
            final(self)@.globals == old(self)@.globals,
            match queued {
                Ok(job) => {
                    let files = old(self)@.database()[tag@].spec_data()->0.spec_marking_files();
                    &&& old(self)@.is_loaded(tag@)
                    &&& has_file_named(files, mark_name@)
                    &&& final(self)@.queue == old(self)@.queue.push(
                        QueuedView::fresh(true),
                    )
                    &&& job.tag == tag
                    &&& job.endpoint@ == submission_url(cgi_endpoint@, tag@)
                    &&& job.auth == auth
                    &&& job.imark_id == files[first_file_named(files, mark_name@)]@.imark_id
                    &&& job.mark_name@ == mark_name@
                    &&& job.mark@ == awarded_mark(choices@.entries)
                    &&& line_views(job.lines@) == justification_lines(choices@.entries)
                },
                Err(StoreError::UnknownJournal(refused)) => {
                    &&& !old(self)@.tags.contains(tag@)
                    &&& final(self)@ == old(self)@
                    &&& refused == tag
                },
                Err(StoreError::NotLoaded(refused)) => {
                    &&& old(self)@.tags.contains(tag@)
                    &&& !old(self)@.is_loaded(tag@)
                    &&& final(self)@ == old(self)@
                    &&& refused == tag
                },
                Err(StoreError::NoMarkFile(refused)) => {
                    &&& old(self)@.is_loaded(tag@)
                    &&& !has_file_named(
                        old(self)@.database()[tag@].spec_data()->0.spec_marking_files(),
                        mark_name@,
                    )
                    &&& final(self)@ == old(self)@
                    &&& refused == tag
                },
                Err(_) => false,
            },
    {
        let ghost before = self@;
        let at: usize = match self.position(&tag) {
            None => {
                return Err(StoreError::UnknownJournal(tag));
            },
            Some(at) => at,
        };
        proof {
            before.lemma_index_of(tag@, at as int);
        }
        let (imark_id, name) = match self.entries[at].journal.data() {
            None => {
                return Err(StoreError::NotLoaded(tag));
            },
            Some(data) => {
                proof {
                    lemma_first_file_named(data.spec_marking_files(), mark_name@);
                }
                match data.mark_file(mark_name) {
                    None => {
                        return Err(StoreError::NoMarkFile(tag));
                    },
                    Some(file) => {
                        let mut name = String::new();
                        name.append(file.file_name());
                        (file.imark_id(), name)
                    },
                }
            },
        };
        let mark = choices.mark();
        let lines = choices.justification();
        let endpoint = submission_endpoint(cgi_endpoint, &tag);
        let (task, reply) = Task::new(true);
        self.queue.push(task);
        proof {
            assert(self@.queue =~= before.queue.push(
                QueuedView::fresh(true),
            ));
            assert(self@.tags =~= before.tags);
            assert(self@.listed =~= before.listed);
            assert(self@.journals =~= before.journals);
        }
        Ok(MarkJob { tag, endpoint, auth, imark_id, mark_name: name, mark, lines, reply })
    }
}

/// How a journal may change while the queue is scanned: not at all, or from
/// unloaded to loaded under the same summary but for the awarded mark.
pub open spec fn evolved(before: Journal, after: Journal) -> bool {
    ||| after == before
    ||| {
        &&& before is Unloaded
        &&& after is Loaded
        &&& after.spec_meta()@ == (MetaView {
            mark: after.spec_meta()@.mark,
            ..before.spec_meta()@
        })
    }
}

/// Whether the queue `after` is what is left of the queue `before` when
/// some of its tasks are taken out: `origin` gives, for each task that is
/// left, the place that it had before, and keeps their order.
pub open spec fn left_of(after: Seq<QueuedView>, before: Seq<QueuedView>, origin: Seq<int>) -> bool {
    &&& origin.len() == after.len()
    &&& forall|k: int|
        0 <= k < after.len() ==> 0 <= #[trigger] origin[k] < before.len() && after[k].must_complete
            == before[origin[k]].must_complete
    &&& forall|k: int, l: int| 0 <= k < l < after.len() ==> #[trigger] origin[k] < #[trigger] origin[l]
}

/// Taking one task out of what is left of a queue leaves what is left of it
/// still.
proof fn lemma_left_of_remove(
    after: Seq<QueuedView>,
    before: Seq<QueuedView>,
    origin: Seq<int>,
    at: int,
)
    requires
        left_of(after, before, origin),
        0 <= at < after.len(),
    ensures
        left_of(after.remove(at), before, origin.remove(at)),
{
    let shorter = after.remove(at);
    let places = origin.remove(at);
    assert forall|k: int| 0 <= k < shorter.len() implies 0 <= #[trigger] places[k] < before.len()
        && shorter[k].must_complete == before[places[k]].must_complete by {
        if k < at {
            assert(shorter[k] == after[k] && places[k] == origin[k]);
        } else {
            assert(shorter[k] == after[k + 1] && places[k] == origin[k + 1]);
        }
    }
    assert forall|k: int, l: int| 0 <= k < l < shorter.len() implies #[trigger] places[k]
        < #[trigger] places[l] by {
        let a = if k < at {
            k
        } else {
            k + 1
        };
        let b = if l < at {
            l
        } else {
            l + 1
        };
        assert(places[k] == origin[a] && places[l] == origin[b]);
    }
}

/// Whether a poll of the queued task `task` may return `polled`. What the
/// work sends decides, but for what the handle knows already: a result that
/// it holds is handed out, so the poll does not say "not yet"; and a channel
/// that was seen closed, with nothing held, gives `Disconnected`.
pub open spec fn may_poll(task: QueuedView, polled: Result<Option<Completion>, TaskError>) -> bool {
    &&& !task.resolved
    &&& task.holding ==> !(polled matches Ok(None))
    &&& !task.holding && task.closed ==> polled matches Err(TaskError::Disconnected)
}

/// The failure that a poll brings, if it brings one.
pub open spec fn failure_of(polled: Result<Option<Completion>, TaskError>) -> Option<TaskError> {
    match polled {
        Err(failure) => Some(failure),
        Ok(_) => None,
    }
}

/// What the store makes of one poll of its queued task at place `at`. A
/// task that is not done yet stays, and nothing changes. A task that is done
/// leaves the queue and what it reported is taken in. A task that failed
/// leaves the queue, nothing else changes, and the failure is handed on.
pub open spec fn taken_in(
    before: StoreView,
    at: int,
    polled: Result<Option<Completion>, TaskError>,
    after: StoreView,
    failed: Option<TaskError>,
) -> bool {
    match polled {
        Ok(None) => failed is None && after == before,
        Ok(Some(done)) => failed is None && settled(
            (StoreView { queue: before.queue.remove(at), ..before }),
            done,
            after,
        ),
        Err(failure) => failed == Some(failure) && after == (StoreView {
            queue: before.queue.remove(at),
            ..before
        }),
    }
}

/// How many of `polls` found their task not done yet, so that it stayed in
/// the queue.
pub open spec fn stayed(polls: Seq<Result<Option<Completion>, TaskError>>) -> int
    decreases polls.len(),
{
    if polls.len() == 0 {
        0
    } else if polls.last() matches Ok(None) {
        stayed(polls.drop_last()) + 1
    } else {
        stayed(polls.drop_last())
    }
}

/// Whether the poll at place `j` of a scan is in order. It is the poll of
/// the first task that was not polled yet, which stands behind the tasks that
/// stayed; it returns what that task may return; the store makes of it what
/// `taken_in` says; and it is a failure only if it is the last poll, since a
/// failure ends the scan.
pub open spec fn scan_step(
    polls: Seq<Result<Option<Completion>, TaskError>>,
    stores: Seq<StoreView>,
    j: int,
) -> bool {
    &&& stayed(polls.take(j)) < stores[j].queue.len()
    &&& may_poll(stores[j].queue[stayed(polls.take(j))], polls[j])
    &&& taken_in(stores[j], stayed(polls.take(j)), polls[j], stores[j + 1], failure_of(polls[j]))
    &&& (polls[j] is Err ==> j == polls.len() - 1)
}

/// Whether `stores` are the states that a scan goes through from `before`
/// when its polls return `polls`, in this order.
pub open spec fn scan_steps(
    before: StoreView,
    polls: Seq<Result<Option<Completion>, TaskError>>,
    stores: Seq<StoreView>,
) -> bool {
    &&& stores.len() == polls.len() + 1
    &&& stores[0] == before
    &&& forall|j: int| 0 <= j < polls.len() ==> #[trigger] scan_step(polls, stores, j)
}

/// Whether a scan of the store `before` can leave the store `after` and
/// return `result`: there are polls, one for each task in turn, that lead
/// from the one to the other. Without a failure every task was polled, and
/// the result counts those that stayed. A failure is that of the last task
/// polled, and the tasks behind it were not polled.
pub open spec fn scan_ran(before: StoreView, after: StoreView, result: Result<usize, TaskError>) -> bool {
    exists|polls: Seq<Result<Option<Completion>, TaskError>>, stores: Seq<StoreView>|
        {
            &&& #[trigger] scan_steps(before, polls, stores)
            &&& stores.last() == after
            &&& match result {
                Ok(left) => {
                    &&& forall|j: int| 0 <= j < polls.len() ==> (#[trigger] polls[j]) is Ok
                    &&& stayed(polls) == after.queue.len()
                    &&& left == after.queue.len()
                },
                Err(failure) => polls.len() > 0 && polls.last() == Err::<
                    Option<Completion>,
                    TaskError,
                >(failure),
            }
        }
}

/// Whether a scan of the store `before` can leave the store `after`: with
/// `failure` if it ended in one, else with every task polled.
pub open spec fn scan_led(before: StoreView, after: StoreView, failure: Option<TaskError>) -> bool {
    scan_ran(
        before,
        after,
        match failure {
            Some(failure) => Err(failure),
            None => Ok(after.queue.len() as usize),
        },
    )
}

/// A scan that has gone through `polls` without a failure goes on with one
/// more poll.
proof fn lemma_scan_step(
    before: StoreView,
    polls: Seq<Result<Option<Completion>, TaskError>>,
    stores: Seq<StoreView>,
    polled: Result<Option<Completion>, TaskError>,
    next: StoreView,
)
    requires
        scan_steps(before, polls, stores),
        forall|j: int| 0 <= j < polls.len() ==> (#[trigger] polls[j]) is Ok,
        stayed(polls) < stores.last().queue.len(),
        may_poll(stores.last().queue[stayed(polls)], polled),
        taken_in(stores.last(), stayed(polls), polled, next, failure_of(polled)),
    ensures
        scan_steps(before, polls.push(polled), stores.push(next)),
        stores.push(next).last() == next,
        stayed(polls.push(polled)) == stayed(polls) + if polled matches Ok(None) {
            1int
        } else {
            0int
        },
{
    let more = polls.push(polled);
    let states = stores.push(next);
    assert(more.drop_last() =~= polls);
    assert(more.last() == polled);
    assert forall|j: int| 0 <= j < more.len() implies #[trigger] scan_step(more, states, j) by {
        assert(more.take(j) =~= polls.take(j));
        if j < polls.len() {
            assert(scan_step(polls, stores, j));
            assert(more[j] == polls[j]);
            assert(polls[j] is Ok);
            assert(states[j] == stores[j]);
            assert(states[j + 1] == stores[j + 1]);
        } else {
            assert(polls.take(j) =~= polls);
            assert(more[j] == polled);
            assert(states[j] == stores.last());
            assert(states[j + 1] == next);
        }
    }
}

/// After `j` polls of a scan the queue has lost one task for each poll that
/// did not find its task still at work.
pub proof fn lemma_scan_lengths(
    before: StoreView,
    polls: Seq<Result<Option<Completion>, TaskError>>,
    stores: Seq<StoreView>,
    j: int,
)
    requires
        scan_steps(before, polls, stores),
        0 <= j <= polls.len(),
    ensures
        0 <= stayed(polls.take(j)) <= j,
        stores[j].queue.len() == before.queue.len() - (j - stayed(polls.take(j))),
    decreases j,
{
    if j > 0 {
        lemma_scan_lengths(before, polls, stores, j - 1);
        assert(scan_step(polls, stores, j - 1));
        assert(polls.take(j).drop_last() =~= polls.take(j - 1));
        assert(polls.take(j).last() == polls[j - 1]);
    } else {
        assert(polls.take(0) =~= Seq::empty());
    }
}

/// A scan that does not fail polls every task of the queue, each once and
/// in turn, and returns how many of them were not done yet: these are the
/// tasks that stay.
pub proof fn lemma_scan_polls_every_task(before: StoreView, after: StoreView, left: usize)
    requires
        scan_ran(before, after, Ok(left)),
    ensures
        left == after.queue.len(),
        left <= before.queue.len(),
        exists|polls: Seq<Result<Option<Completion>, TaskError>>, stores: Seq<StoreView>|
            {
                &&& #[trigger] scan_steps(before, polls, stores)
                &&& stores.last() == after
                &&& polls.len() == before.queue.len()
                &&& forall|j: int| 0 <= j < polls.len() ==> (#[trigger] polls[j]) is Ok
                &&& left == stayed(polls)
            },
{
    let (polls, stores) = choose|
        polls: Seq<Result<Option<Completion>, TaskError>>,
        stores: Seq<StoreView>,
    |
        {
            &&& #[trigger] scan_steps(before, polls, stores)
            &&& stores.last() == after
            &&& forall|j: int| 0 <= j < polls.len() ==> (#[trigger] polls[j]) is Ok
            &&& stayed(polls) == after.queue.len()
            &&& left == after.queue.len()
        };
    lemma_scan_lengths(before, polls, stores, polls.len() as int);
    assert(polls.take(polls.len() as int) =~= polls);
}

/// A scan that fails has polled the tasks in turn up to the one that
/// failed. The failure is that task's own, its place in the queue is
/// cleared, and the tasks behind it are not polled: they stay as they were.
pub proof fn lemma_scan_failure(before: StoreView, after: StoreView, failure: TaskError)
    requires
        scan_ran(before, after, Err(failure)),
    ensures
        exists|polls: Seq<Result<Option<Completion>, TaskError>>, stores: Seq<StoreView>|
            {
                &&& #[trigger] scan_steps(before, polls, stores)
                &&& 0 < polls.len() <= before.queue.len()
                &&& polls.last() == Err::<Option<Completion>, TaskError>(failure)
                &&& after == (StoreView {
                    queue: stores[polls.len() - 1].queue.remove(stayed(polls.drop_last())),
                    ..stores[polls.len() - 1]
                })
                &&& after.queue.len() == before.queue.len() - (polls.len() - stayed(polls))
            },
{
    let (polls, stores) = choose|
        polls: Seq<Result<Option<Completion>, TaskError>>,
        stores: Seq<StoreView>,
    |
        {
            &&& #[trigger] scan_steps(before, polls, stores)
            &&& stores.last() == after
            &&& polls.len() > 0
            &&& polls.last() == Err::<Option<Completion>, TaskError>(failure)
        };
    let last = polls.len() - 1;
    assert(scan_step(polls, stores, last));
    assert(polls.take(last) =~= polls.drop_last());
    lemma_scan_lengths(before, polls, stores, last);
    lemma_scan_lengths(before, polls, stores, polls.len() as int);
    assert(polls.take(polls.len() as int) =~= polls);
}

/// A task whose channel was seen closed, and whose handle holds nothing,
/// fails the scan that reaches it: where it stands first in the queue, the
/// scan ends with `Disconnected`, and nothing changes but that the task
/// leaves the queue.
pub proof fn lemma_scan_of_closed_task(
    before: StoreView,
    after: StoreView,
    result: Result<usize, TaskError>,
)
    requires
        before.queue.len() >= 1,
        before.queue[0].closed,
        !before.queue[0].holding,
        scan_ran(before, after, result),
    ensures
        result matches Err(TaskError::Disconnected),
        after == (StoreView { queue: before.queue.remove(0), ..before }),
{
    let (polls, stores) = choose|
        polls: Seq<Result<Option<Completion>, TaskError>>,
        stores: Seq<StoreView>,
    |
        {
            &&& #[trigger] scan_steps(before, polls, stores)
            &&& stores.last() == after
            &&& match result {
                Ok(left) => {
                    &&& forall|j: int| 0 <= j < polls.len() ==> (#[trigger] polls[j]) is Ok
                    &&& stayed(polls) == after.queue.len()
                    &&& left == after.queue.len()
                },
                Err(failure) => polls.len() > 0 && polls.last() == Err::<
                    Option<Completion>,
                    TaskError,
                >(failure),
            }
        };
    if polls.len() == 0 {
        assert(stayed(polls) == 0);
    } else {
        assert(scan_step(polls, stores, 0));
        assert(polls.take(0) =~= Seq::empty());
        assert(stayed(polls.take(0)) == 0);
    }
}

/// A task whose handle holds a result does not stay in the queue: where it
/// stands first, the scan takes it out, whatever else it does.
pub proof fn lemma_scan_of_holding_task(
    before: StoreView,
    after: StoreView,
    result: Result<usize, TaskError>,
)
    requires
        before.queue.len() >= 1,
        before.queue[0].holding,
        scan_ran(before, after, result),
    ensures
        after.queue.len() < before.queue.len(),
{
    let (polls, stores) = choose|
        polls: Seq<Result<Option<Completion>, TaskError>>,
        stores: Seq<StoreView>,
    |
        {
            &&& #[trigger] scan_steps(before, polls, stores)
            &&& stores.last() == after
            &&& match result {
                Ok(left) => {
                    &&& forall|j: int| 0 <= j < polls.len() ==> (#[trigger] polls[j]) is Ok
                    &&& stayed(polls) == after.queue.len()
                    &&& left == after.queue.len()
                },
                Err(failure) => polls.len() > 0 && polls.last() == Err::<
                    Option<Completion>,
                    TaskError,
                >(failure),
            }
        };
    lemma_scan_lengths(before, polls, stores, polls.len() as int);
    assert(polls.take(polls.len() as int) =~= polls);
    if polls.len() == 0 {
        assert(stayed(polls) == 0);
    } else {
        assert(scan_step(polls, stores, 0));
        assert(polls.take(0) =~= Seq::empty());
        assert(stayed(polls.take(0)) == 0);
        lemma_stayed_counts_from_the_first(polls);
    }
}

/// Where the first poll did not find its task still at work, fewer tasks
/// stayed than were polled.
proof fn lemma_stayed_counts_from_the_first(polls: Seq<Result<Option<Completion>, TaskError>>)
    requires
        polls.len() > 0,
        !(polls[0] matches Ok(None)),
    ensures
        stayed(polls) < polls.len(),
    decreases polls.len(),
{
    if polls.len() > 1 {
        assert(polls.drop_last()[0] == polls[0]);
        lemma_stayed_counts_from_the_first(polls.drop_last());
    } else {
        assert(polls.drop_last() =~= Seq::empty());
        assert(stayed(polls.drop_last()) == 0);
    }
}

impl Journals {
    /// Makes of one poll of the queued task at place `at` what a scan makes
    /// of it. `polled` is what the poll of that task has just returned. A
    /// task that is not done yet stays. A task that is done leaves the queue
    /// and what it reported is taken in. A task that failed leaves the queue
    /// and its failure is returned.
    pub fn take_in(&mut self, at: usize, polled: Result<Option<Completion>, TaskError>) -> (failed:
        Option<TaskError>)
        requires
            at < old(self)@.queue.len(),
            old(self)@.listed.len() == old(self)@.tags.len(),
            old(self)@.journals.len() == old(self)@.tags.len(),
            old(self)@.tags.no_duplicates(),
            sorted(old(self)@.listed),
            forall|i: int|
                0 <= i < old(self)@.queue.len() && i != at ==> !(#[trigger] old(self)@.queue[i]).resolved,
        ensures
            taken_in(old(self)@, at as int, polled, final(self)@, failed),
            !(polled matches Ok(None)) ==> final(self)@.wf(),
    {
        let ghost before = self@;
        match polled {
            Ok(None) => None,
            Ok(Some(done)) => {
                let _ = self.queue.remove(at);
                proof {
                    assert(self@.queue =~= before.queue.remove(at as int));
                    assert(self@.tags =~= before.tags);
                    assert(self@.listed =~= before.listed);
                    assert(self@.journals =~= before.journals);
                    self.lemma_removed(before, at as int);
                }
                self.settle(done);
                None
            },
            Err(failure) => {
                let _ = self.queue.remove(at);
                proof {
                    assert(self@.queue =~= before.queue.remove(at as int));
                    assert(self@.tags =~= before.tags);
                    assert(self@.listed =~= before.listed);
                    assert(self@.journals =~= before.journals);
                    self.lemma_removed(before, at as int);
                }
                Some(failure)
            },
        }
    }

    /// A store whose queue has lost the task at place `at` is the same store
    /// but for that task, and is in order if all other tasks have not
    /// resolved.
    proof fn lemma_removed(&self, before: StoreView, at: int)
        requires
            0 <= at < before.queue.len(),
            self@.tags == before.tags,
            self@.listed == before.listed,
            self@.journals == before.journals,
            self@.globals == before.globals,
            self@.queue == before.queue.remove(at),
            before.listed.len() == before.tags.len(),
            before.journals.len() == before.tags.len(),
            before.tags.no_duplicates(),
            sorted(before.listed),
            forall|i: int|
                0 <= i < before.queue.len() && i != at ==> !(#[trigger] before.queue[i]).resolved,
        ensures
            self@ == (StoreView { queue: before.queue.remove(at), ..before }),
            self@.wf(),
    {
        assert forall|i: int| 0 <= i < self@.queue.len() implies !(#[trigger] self@.queue[i]).resolved by {
            if i < at {
                assert(self@.queue[i] == before.queue[i]);
            } else {
                assert(self@.queue[i] == before.queue[i + 1]);
            }
        }
    }

    /// Polls the queued tasks once each, from the first. A task that has
    /// finished leaves the queue and what it reported is taken in. The first
    /// failure ends the scan: its task leaves the queue, the failure is
    /// returned, and the tasks behind it wait for the next scan. Without a
    /// failure the number of tasks still outstanding is returned.
    pub fn scan_queue(&mut self) -> (scanned: Result<usize, TaskError>)
        requires
            old(self)@.wf(),
        ensures
            final(self)@.wf(),
            scan_ran(old(self)@, final(self)@, scanned),
            final(self)@.tags == old(self)@.tags,
            final(self)@.listed == old(self)@.listed,
            final(self)@.globals == old(self)@.globals,
            final(self)@.journals.len() == old(self)@.journals.len(),
            forall|i: int|
                0 <= i < old(self)@.journals.len() ==> evolved(
                    old(self)@.journals[i],
                    #[trigger] final(self)@.journals[i],
                ),
            match scanned {
                Ok(left) => left == final(self)@.queue.len() && left <= old(self)@.queue.len(),
                Err(_) => final(self)@.queue.len() < old(self)@.queue.len(),
            },
            exists|origin: Seq<int>| left_of(final(self)@.queue, old(self)@.queue, origin),
            old(self)@.queue.len() == 0 ==> (scanned matches Ok(0)) && final(self)@ == old(self)@,
    {
        let ghost before = self@;
        let ghost mut origin: Seq<int> = Seq::new(before.queue.len(), |k: int| k);
        let ghost mut polls: Seq<Result<Option<Completion>, TaskError>> = Seq::empty();
        let ghost mut stores: Seq<StoreView> = seq![before];
        let mut index: usize = 0;
        while index < self.queue.len()
            invariant
                index <= self.queue@.len(),
                self.queue@.len() <= before.queue.len(),
                before == old(self)@,
                before.wf(),
                self@.wf(),
                self@.tags == before.tags,
                self@.listed == before.listed,
                self@.globals == before.globals,
                self@.journals.len() == before.journals.len(),
                before.queue.len() == 0 ==> self@ == before,
                left_of(self@.queue, before.queue, origin),
                forall|i: int|
                    0 <= i < before.journals.len() ==> evolved(
                        before.journals[i],
                        #[trigger] self@.journals[i],
                    ),
                scan_steps(before, polls, stores),
                stores.last() == self@,
                index == stayed(polls),
                forall|j: int| 0 <= j < polls.len() ==> (#[trigger] polls[j]) is Ok,
            decreases self.queue@.len() - index,
        {
            let ghost entering = self@;
            let polled = self.queue[index].poll();
            let ghost seen = polled;
            let ghost mid = self@;
            let stays = match &polled {
                Ok(None) => true,
                _ => false,
            };
            proof {
                assert(mid.tags =~= entering.tags);
                assert(mid.listed =~= entering.listed);
                assert(mid.journals =~= entering.journals);
                assert forall|i: int| 0 <= i < mid.queue.len() && i != index implies mid.queue[i]
                    == entering.queue[i] by {}
                assert(may_poll(entering.queue[index as int], seen));
                assert(mid.queue.remove(index as int) =~= entering.queue.remove(index as int));
                if stays {
                    assert(mid.queue =~= entering.queue);
                }
            }
            let failed = self.take_in(index, polled);
            proof {
                assert(taken_in(entering, index as int, seen, self@, failure_of(seen)));
                lemma_scan_step(before, polls, stores, seen, self@);
                polls = polls.push(seen);
                stores = stores.push(self@);
                if !stays {
                    lemma_left_of_remove(entering.queue, before.queue, origin, index as int);
                    origin = origin.remove(index as int);
                }
                assert forall|i: int| 0 <= i < before.journals.len() implies evolved(
                    before.journals[i],
                    #[trigger] self@.journals[i],
                ) by {
                    assert(evolved(before.journals[i], entering.journals[i]));
                    match seen {
                        Ok(Some(Completion::Loaded(loaded))) => {
                            if entering.tags[i] == loaded.tag@ {
                                entering.lemma_index_of(loaded.tag@, i);
                                self@.lemma_index_of(loaded.tag@, i);
                            }
                        },
                        _ => {},
                    }
                }
            }
            match failed {
                Some(failure) => {
                    return Err(failure);
                },
                None => {},
            }
            if stays {
                index = index + 1;
            }
        }
        Ok(self.queue.len())
    }
}

/// A cursor that can step both ways. `next` yields the item at the cursor
/// and moves past it; `next_back` moves back by one and yields the item it
/// then stands before.
pub trait BidirectionalIterator {
    type Item;

    fn next(&mut self) -> Option<Self::Item>;

    fn next_back(&mut self) -> Option<Self::Item>;
}

/// A cursor over the journals of a store, in display order.
pub struct JournalsIter<'a> {
    journals: &'a Journals,
    index: usize,
}

impl<'a> JournalsIter<'a> {
    /// The store that the cursor walks.
    pub closed spec fn store(&self) -> StoreView {
        self.journals@
    }

    /// How many journals stand before the cursor.
    pub closed spec fn cursor(&self) -> nat {
        self.index as nat
    }
}

impl<'a> BidirectionalIterator for JournalsIter<'a> {
    type Item = (&'a JournalTag, &'a Journal);

    fn next(&mut self) -> (item: Option<(&'a JournalTag, &'a Journal)>)
        ensures
            final(self).store() == old(self).store(),
            match item {
                Some((tag, journal)) => {
                    &&& old(self).cursor() < old(self).store().tags.len()
                    &&& tag@ == old(self).store().tags[old(self).cursor() as int]
                    &&& *journal == old(self).store().journals[old(self).cursor() as int]
                    &&& final(self).cursor() == old(self).cursor() + 1
                },
                None => {
                    &&& old(self).cursor() >= old(self).store().tags.len()
                    &&& final(self).cursor() == old(self).cursor()
                },
            },
    {
        if self.index >= self.journals.entries.len() {
            return None;
        }
        let entry = &self.journals.entries[self.index];
        self.index = self.index + 1;
        Some((&entry.tag, &entry.journal))
    }

    fn next_back(&mut self) -> (item: Option<(&'a JournalTag, &'a Journal)>)
        ensures
            final(self).store() == old(self).store(),
            match item {
                Some((tag, journal)) => {
                    &&& 0 < old(self).cursor() <= old(self).store().tags.len()
                    &&& tag@ == old(self).store().tags[old(self).cursor() - 1]
                    &&& *journal == old(self).store().journals[old(self).cursor() - 1]
                    &&& final(self).cursor() == old(self).cursor() - 1
                },
                None => {
                    &&& old(self).cursor() == 0 || old(self).cursor() > old(self).store().tags.len()
                    &&& final(self).cursor() == old(self).cursor()
                },
            },
    {
        if self.index == 0 || self.index > self.journals.entries.len() {
            return None;
        }
        self.index = self.index - 1;
        let entry = &self.journals.entries[self.index];
        Some((&entry.tag, &entry.journal))
    }
}

impl Journals {
    /// A fresh cursor before the first journal of the display order.
    pub fn iter(&self) -> (iter: JournalsIter<'_>)
        ensures
            iter.store() == self@,
            iter.cursor() == 0,
    {
        JournalsIter { journals: self, index: 0 }
    }
}

/// A store is always in order: its summaries are sorted, and its map and its
/// ordering list are of one size.
pub proof fn lemma_store_in_order(store: StoreView)
    requires
        store.wf(),
    ensures
        forall|i: int, j: int|
            0 <= i < j < store.ordering().len() ==> !meta_precedes(
                (#[trigger] store.ordering()[j]).1,
                (#[trigger] store.ordering()[i]).1,
            ),
        store.database().dom().finite(),
        store.database().dom().len() == store.ordering().len(),
{
    store.lemma_database_size();
    assert forall|i: int, j: int| 0 <= i < j < store.ordering().len() implies !meta_precedes(
        (#[trigger] store.ordering()[j]).1,
        (#[trigger] store.ordering()[i]).1,
    ) by {
        assert(store.ordering()[j].1 == store.listed[j]);
        assert(store.ordering()[i].1 == store.listed[i]);
    }
}

/// Of two loads of one submission only the first takes effect: it loads the
/// journal with what it fetched, and the second, which finds the journal
/// loaded, leaves the store as it is.
pub proof fn lemma_second_load_changes_nothing(
    start: StoreView,
    first: LoadedSubmission,
    loaded: StoreView,
    second: LoadedSubmission,
    last: StoreView,
)
    requires
        start.wf(),
        start.tags.contains(first.tag@),
        !start.is_loaded(first.tag@),
        second.tag@ == first.tag@,
        settled(start, Completion::Loaded(first), loaded),
        settled(loaded, Completion::Loaded(second), last),
    ensures
        loaded.is_loaded(first.tag@),
        loaded.database()[first.tag@].spec_data() == Some(first.data),
        last == loaded,
{
}

/// Unloading keeps the summary and drops the files, and a load that follows
/// fills the journal with what that load fetched.
pub proof fn lemma_unload_then_load(
    start: StoreView,
    tag: TagView,
    dropped: StoreView,
    fetched: LoadedSubmission,
    last: StoreView,
)
    requires
        start.wf(),
        start.tags.contains(tag),
        unloaded(start, tag, dropped),
        fetched.tag@ == tag,
        settled(dropped, Completion::Loaded(fetched), last),
    ensures
        dropped.database()[tag] is Unloaded,
        dropped.database()[tag].spec_meta() == start.database()[tag].spec_meta(),
        !dropped.is_loaded(tag),
        last.database()[tag] is Loaded,
        last.database()[tag].spec_data() == Some(fetched.data),
{
}

impl Journals {
    /// Whether dropping the store now would lose work that must complete.
    /// `unwinding` says that the thread is already panicking: then nothing is
    /// lost that matters, and the store stays as it is. Else the queued tasks
    /// that must complete look at their channels, from the first, up to the
    /// first whose work may still be under way. To drop the store is fatal
    /// exactly if there is such a task.
    pub fn abandoning(&mut self, unwinding: bool) -> (fatal: bool)
        ensures
            store_looked_at(old(self)@, final(self)@),
            old(self)@.wf() ==> final(self)@.wf(),
            unwinding ==> final(self)@ == old(self)@,
            fatal == (!unwinding && holds_work(final(self)@.queue)),
    {
        let ghost before = self@;
        let mut index: usize = 0;
        while index < self.queue.len()
            invariant
                index <= self.queue@.len(),
                before == old(self)@,
                store_looked_at(before, self@),
                unwinding ==> self@ == before,
                !unwinding ==> forall|k: int|
                    0 <= k < index ==> !(#[trigger] self@.queue[k]).outstanding(),
            decreases self.queue@.len() - index,
        {
            let ghost entering = self@;
            let fatal = self.queue[index].abandoning(unwinding);
            proof {
                assert(self@.tags =~= entering.tags);
                assert(self@.listed =~= entering.listed);
                assert(self@.journals =~= entering.journals);
                assert forall|k: int| 0 <= k < self@.queue.len() implies entering.queue[k].looked_at(
                    #[trigger] self@.queue[k],
                ) by {
                    if k != index {
                        assert(self@.queue[k] == entering.queue[k]);
                    }
                }
                if unwinding {
                    assert(self@.queue =~= entering.queue);
                }
            }
            if fatal {
                proof {
                    assert(self@.queue[index as int].outstanding());
                }
                return true;
            }
            proof {
                if !unwinding {
                    assert forall|k: int| 0 <= k < index + 1 implies !(
                    #[trigger] self@.queue[k]).outstanding() by {
                        if k < index {
                            assert(self@.queue[k] == entering.queue[k]);
                        }
                    }
                }
            }
            index = index + 1;
        }
        false
    }
}

/// The queue holds exactly the tasks that are outstanding: none of them has
/// resolved, so the queue is empty if and only if every task in it has.
pub proof fn lemma_queue_is_outstanding(store: StoreView)
    requires
        store.wf(),
    ensures
        forall|i: int| 0 <= i < store.queue.len() ==> !(#[trigger] store.queue[i]).resolved,
        store.queue.len() == 0 <==> forall|i: int|
            0 <= i < store.queue.len() ==> (#[trigger] store.queue[i]).resolved,
{
    if store.queue.len() > 0 {
        assert(!store.queue[0].resolved);
    }
}

} // verus!
