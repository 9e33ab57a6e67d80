//! The marking session's data: settings, credentials, and the journals with
//! their tags, summaries and loaded files.

use vstd::prelude::*;
use vstd::string::StringExecFns;
use crate::amount::Mark;
use crate::choice::{ChoiceView, Choices};
use crate::order::{text_before, text_precedes};
use crate::text::same_text;

verus! {

/// `memfile::MemFile`: an anonymous file in memory. The library carries it
/// and never looks inside.
#[verifier::external_type_specification]
#[verifier::external_body]
pub struct ExMemFile(memfile::MemFile);

/// The settings of one run of the program.
pub struct Globals {
    cgi_endpoint: String,
    pager_command: String,
    mark_name: String,
    choices: Choices,
    preload: usize,
    panic_on_drop: bool,
    hide_names: bool,
}

pub ghost struct GlobalsView {
    pub cgi_endpoint: Seq<char>,
    pub pager_command: Seq<char>,
    pub mark_name: Seq<char>,
    pub choices: Seq<ChoiceView>,
    pub preload: nat,
    pub panic_on_drop: bool,
    pub hide_names: bool,
}

impl View for Globals {
    type V = GlobalsView;

    closed spec fn view(&self) -> GlobalsView {
        GlobalsView {
            cgi_endpoint: self.cgi_endpoint@,
            pager_command: self.pager_command@,
            mark_name: self.mark_name@,
            choices: self.choices@,
            preload: self.preload as nat,
            panic_on_drop: self.panic_on_drop,
            hide_names: self.hide_names,
        }
    }
}

impl Clone for Globals {
    fn clone(&self) -> (copy: Self)
        ensures
            copy@ == self@,
    {
        Globals {
            cgi_endpoint: self.cgi_endpoint.clone(),
            pager_command: self.pager_command.clone(),
            mark_name: self.mark_name.clone(),
            choices: self.choices.clone(),
            preload: self.preload,
            panic_on_drop: self.panic_on_drop,
            hide_names: self.hide_names,
        }
    }
}

impl Default for Globals {
    fn default() -> (globals: Self)
        ensures
            globals@ == (GlobalsView {
                cgi_endpoint: Seq::empty(),
                pager_command: Seq::empty(),
                mark_name: Seq::empty(),
                choices: Seq::empty(),
                preload: 0,
                panic_on_drop: false,
                hide_names: false,
            }),
    {
        Globals {
            cgi_endpoint: String::new(),
            pager_command: String::new(),
            mark_name: String::new(),
            choices: Choices::default(),
            preload: 0,
            panic_on_drop: false,
            hide_names: false,
        }
    }
}

impl Globals {
    pub fn new(
        cgi_endpoint: String,
        pager_command: String,
        mark_name: String,
        choices: Choices,
        preload: usize,
        panic_on_drop: bool,
        hide_names: bool,
    ) -> (globals: Self)
        ensures
            globals@ == (GlobalsView {
                cgi_endpoint: cgi_endpoint@,
                pager_command: pager_command@,
                mark_name: mark_name@,
                choices: choices@,
                preload: preload as nat,
                panic_on_drop,
                hide_names,
            }),
    {
        Globals {
            cgi_endpoint,
            pager_command,
            mark_name,
            choices,
            preload,
            panic_on_drop,
            hide_names,
        }
    }

    pub fn cgi_endpoint(&self) -> (cgi_endpoint: &str)
        ensures
            cgi_endpoint@ == self@.cgi_endpoint,
    {
        self.cgi_endpoint.as_str()
    }

    pub fn pager_command(&self) -> (pager_command: &str)
        ensures
            pager_command@ == self@.pager_command,
    {
        self.pager_command.as_str()
    }

    pub fn mark_name(&self) -> (mark_name: &str)
        ensures
            mark_name@ == self@.mark_name,
    {
        self.mark_name.as_str()
    }

    pub fn choices(&self) -> (choices: &Choices)
        ensures
            choices@ == self@.choices,
    {
        &self.choices
    }

    pub fn preload(&self) -> (preload: usize)
        ensures
            preload == self@.preload,
    {
        self.preload
    }

    pub fn panic_on_drop(&self) -> (panic_on_drop: bool)
        ensures
            panic_on_drop == self@.panic_on_drop,
    {
        self.panic_on_drop
    }

    pub fn hide_names(&self) -> (hide_names: bool)
        ensures
            hide_names == self@.hide_names,
    {
        self.hide_names
    }
}

/// The operator's credentials for the grading backend.
#[derive(Debug)]
pub struct Authentication {
    username: String,
    password: String,
}

impl View for Authentication {
    type V = (Seq<char>, Seq<char>);

    closed spec fn view(&self) -> (Seq<char>, Seq<char>) {
        (self.username@, self.password@)
    }
}

impl Clone for Authentication {
    fn clone(&self) -> (copy: Self)
        ensures
            copy@ == self@,
    {
        Authentication { username: self.username.clone(), password: self.password.clone() }
    }
}

impl Authentication {
    pub fn new(username: String, password: String) -> (auth: Self)
        ensures
            auth@ == (username@, password@),
    {
        Authentication { username, password }
    }

    pub fn username(&self) -> (username: &str)
        ensures
            username@ == self@.0,
    {
        self.username.as_str()
    }

    pub fn password(&self) -> (password: &str)
        ensures
            password@ == self@.1,
    {
        self.password.as_str()
    }
}

/// The identity of one submission: the assignment, the group and the
/// student. It never changes. Tags are ordered by assignment, then by group,
/// then by student.
#[derive(Debug, Default, Eq, Ord, Hash)]
pub struct JournalTag {
    assignment: String,
    group_id: String,
    student_id: String,
}

pub ghost struct TagView {
    pub assignment: Seq<char>,
    pub group_id: Seq<char>,
    pub student_id: Seq<char>,
}

impl View for JournalTag {
    type V = TagView;

    closed spec fn view(&self) -> TagView {
        TagView {
            assignment: self.assignment@,
            group_id: self.group_id@,
            student_id: self.student_id@,
        }
    }
}

impl Clone for JournalTag {
    fn clone(&self) -> (copy: Self)
        ensures
            copy == *self,
    {
        JournalTag {
            assignment: self.assignment.clone(),
            group_id: self.group_id.clone(),
            student_id: self.student_id.clone(),
        }
    }
}

impl PartialEq for JournalTag {
    fn eq(&self, other: &Self) -> (same: bool) {
        self.assignment == other.assignment && self.group_id == other.group_id && self.student_id
            == other.student_id
    }
}

impl vstd::std_specs::cmp::PartialEqSpecImpl for JournalTag {
    open spec fn obeys_eq_spec() -> bool {
        true
    }

    open spec fn eq_spec(&self, other: &Self) -> bool {
        self@ == other@
    }
}

/// The order of tags: by assignment, then by group, then by student, each
/// as texts are ordered.
pub open spec fn tag_precedes(a: TagView, b: TagView) -> bool {
    ||| text_precedes(a.assignment, b.assignment)
    ||| a.assignment == b.assignment && text_precedes(a.group_id, b.group_id)
    ||| a.assignment == b.assignment && a.group_id == b.group_id && text_precedes(
        a.student_id,
        b.student_id,
    )
}

/// The order of tags is total: of two different tags one comes before the
/// other, never both, none before itself, and the order is transitive.
pub proof fn lemma_tag_order(a: TagView, b: TagView, c: TagView)
    ensures
        !tag_precedes(a, a),
        !(tag_precedes(a, b) && tag_precedes(b, a)),
        a != b ==> tag_precedes(a, b) || tag_precedes(b, a),
        tag_precedes(a, b) && tag_precedes(b, c) ==> tag_precedes(a, c),
{
    crate::order::lemma_text_irreflexive(a.assignment);
    crate::order::lemma_text_irreflexive(a.group_id);
    crate::order::lemma_text_irreflexive(a.student_id);
    crate::order::lemma_text_irreflexive(b.assignment);
    crate::order::lemma_text_irreflexive(b.group_id);
    crate::order::lemma_text_asymmetric(a.assignment, b.assignment);
    crate::order::lemma_text_asymmetric(a.group_id, b.group_id);
    crate::order::lemma_text_asymmetric(a.student_id, b.student_id);
    crate::order::lemma_text_total(a.assignment, b.assignment);
    crate::order::lemma_text_total(a.group_id, b.group_id);
    crate::order::lemma_text_total(a.student_id, b.student_id);
    crate::order::lemma_text_transitive(a.assignment, b.assignment, c.assignment);
    crate::order::lemma_text_transitive(a.group_id, b.group_id, c.group_id);
    crate::order::lemma_text_transitive(a.student_id, b.student_id, c.student_id);
}

impl PartialOrd for JournalTag {
    fn partial_cmp(&self, other: &Self) -> (order: Option<core::cmp::Ordering>) {
        if self.precedes(other) {
            Some(core::cmp::Ordering::Less)
        } else if other.precedes(self) {
            Some(core::cmp::Ordering::Greater)
        } else {
            Some(core::cmp::Ordering::Equal)
        }
    }
}

impl vstd::std_specs::cmp::PartialOrdSpecImpl for JournalTag {
    open spec fn obeys_partial_cmp_spec() -> bool {
        true
    }

    open spec fn partial_cmp_spec(&self, other: &Self) -> Option<core::cmp::Ordering> {
        if tag_precedes(self@, other@) {
            Some(core::cmp::Ordering::Less)
        } else if tag_precedes(other@, self@) {
            Some(core::cmp::Ordering::Greater)
        } else {
            Some(core::cmp::Ordering::Equal)
        }
    }
}

impl JournalTag {
    /// Whether this tag comes strictly before `other` in the order of tags.
    pub fn precedes(&self, other: &Self) -> (before: bool)
        ensures
            before == tag_precedes(self@, other@),
    {
        if text_before(self.assignment.as_str(), other.assignment.as_str()) {
            true
        } else if self.assignment != other.assignment {
            false
        } else if text_before(self.group_id.as_str(), other.group_id.as_str()) {
            true
        } else if self.group_id != other.group_id {
            false
        } else {
            text_before(self.student_id.as_str(), other.student_id.as_str())
        }
    }

    pub fn new(assignment: String, group_id: String, student_id: String) -> (tag: Self)
        ensures
            tag@ == (TagView {
                assignment: assignment@,
                group_id: group_id@,
                student_id: student_id@,
            }),
    {
        JournalTag { assignment, group_id, student_id }
    }

    pub fn assignment(&self) -> (assignment: &str)
        ensures
            assignment@ == self@.assignment,
    {
        self.assignment.as_str()
    }

    pub fn group_id(&self) -> (group_id: &str)
        ensures
            group_id@ == self@.group_id,
    {
        self.group_id.as_str()
    }

    pub fn student_id(&self) -> (student_id: &str)
        ensures
            student_id@ == self@.student_id,
    {
        self.student_id.as_str()
    }
}

/// What a mark, or the lack of one, weighs in the display order: a higher
/// mark weighs less and so comes first, and no mark weighs most.
pub open spec fn mark_rank(mark: Option<nat>) -> int {
    match mark {
        Some(units) => -(units as int),
        None => 1,
    }
}

/// The summary of one submission.
#[derive(Debug, Eq)]
pub struct JournalMeta {
    name: String,
    provisional_mark: Option<Mark>,
    mark: Option<Mark>,
    notes: Option<String>,
}

pub ghost struct MetaView {
    pub name: Seq<char>,
    pub provisional_mark: Option<nat>,
    pub mark: Option<nat>,
    pub notes: Option<Seq<char>>,
}

/// The display order of summaries: those with a mark first, the higher mark
/// first; among equal marks those with a provisional mark first, the higher
/// first; then by name.
pub open spec fn meta_precedes(a: MetaView, b: MetaView) -> bool {
    ||| mark_rank(a.mark) < mark_rank(b.mark)
    ||| mark_rank(a.mark) == mark_rank(b.mark) && mark_rank(a.provisional_mark) < mark_rank(
        b.provisional_mark,
    )
    ||| mark_rank(a.mark) == mark_rank(b.mark) && mark_rank(a.provisional_mark) == mark_rank(
        b.provisional_mark,
    ) && text_precedes(a.name, b.name)
}

/// Equality of summaries: the same name and the same two marks. Notes do
/// not count.
pub open spec fn meta_equal(a: MetaView, b: MetaView) -> bool {
    a.name == b.name && a.provisional_mark == b.provisional_mark && a.mark == b.mark
}

/// How two things stand in an order.
#[derive(Clone, Copy, Debug, PartialEq, Eq, Structural)]
pub enum Standing {
    Before,
    Level,
    After,
}

/// How the mark `a` stands to the mark `b` in the display order.
pub fn mark_standing(a: Option<Mark>, b: Option<Mark>) -> (standing: Standing)
    ensures
        standing == Standing::Before <==> mark_rank(mark_view(a)) < mark_rank(mark_view(b)),
        standing == Standing::Level <==> mark_rank(mark_view(a)) == mark_rank(mark_view(b)),
        standing == Standing::Level <==> mark_view(a) == mark_view(b),
{
    match (a, b) {
        (Some(x), Some(y)) => {
            if x.units() > y.units() {
                Standing::Before
            } else if x.units() == y.units() {
                Standing::Level
            } else {
                Standing::After
            }
        },
        (Some(_), None) => Standing::Before,
        (None, Some(_)) => Standing::After,
        (None, None) => Standing::Level,
    }
}

/// What an optional mark counts, in millionths.
pub open spec fn mark_view(mark: Option<Mark>) -> Option<nat> {
    match mark {
        Some(mark) => Some(mark@),
        None => None,
    }
}

/// What optional notes say.
pub open spec fn notes_view(notes: Option<String>) -> Option<Seq<char>> {
    match notes {
        Some(notes) => Some(notes@),
        None => None,
    }
}

impl View for JournalMeta {
    type V = MetaView;

    closed spec fn view(&self) -> MetaView {
        MetaView {
            name: self.name@,
            provisional_mark: mark_view(self.provisional_mark),
            mark: mark_view(self.mark),
            notes: notes_view(self.notes),
        }
    }
}

impl Clone for JournalMeta {
    fn clone(&self) -> (copy: Self)
        ensures
            copy == *self,
    {
        JournalMeta {
            name: self.name.clone(),
            provisional_mark: self.provisional_mark,
            mark: self.mark,
            notes: match &self.notes {
                Some(notes) => Some(notes.clone()),
                None => None,
            },
        }
    }
}

impl Default for JournalMeta {
    fn default() -> (meta: Self)
        ensures
            meta@ == (MetaView {
                name: Seq::empty(),
                provisional_mark: None,
                mark: None,
                notes: None,
            }),
    {
        JournalMeta { name: String::new(), provisional_mark: None, mark: None, notes: None }
    }
}

impl PartialEq for JournalMeta {
    fn eq(&self, other: &Self) -> (same: bool) {
        self.name == other.name && mark_standing(self.provisional_mark, other.provisional_mark)
            == Standing::Level && mark_standing(self.mark, other.mark) == Standing::Level
    }
}

impl vstd::std_specs::cmp::PartialEqSpecImpl for JournalMeta {
    open spec fn obeys_eq_spec() -> bool {
        true
    }

    open spec fn eq_spec(&self, other: &Self) -> bool {
        meta_equal(self@, other@)
    }
}

impl PartialOrd for JournalMeta {
    fn partial_cmp(&self, other: &Self) -> (order: Option<core::cmp::Ordering>) {
        if self.precedes(other) {
            Some(core::cmp::Ordering::Less)
        } else if other.precedes(self) {
            Some(core::cmp::Ordering::Greater)
        } else {
            Some(core::cmp::Ordering::Equal)
        }
    }
}

impl vstd::std_specs::cmp::PartialOrdSpecImpl for JournalMeta {
    open spec fn obeys_partial_cmp_spec() -> bool {
        true
    }

    open spec fn partial_cmp_spec(&self, other: &Self) -> Option<core::cmp::Ordering> {
        if meta_precedes(self@, other@) {
            Some(core::cmp::Ordering::Less)
        } else if meta_precedes(other@, self@) {
            Some(core::cmp::Ordering::Greater)
        } else {
            Some(core::cmp::Ordering::Equal)
        }
    }
}

impl JournalMeta {
    pub fn new(
        name: String,
        provisional_mark: Option<Mark>,
        mark: Option<Mark>,
        notes: Option<String>,
    ) -> (meta: Self)
        ensures
            meta@ == (MetaView {
                name: name@,
                provisional_mark: mark_view(provisional_mark),
                mark: mark_view(mark),
                notes: notes_view(notes),
            }),
    {
        JournalMeta { name, provisional_mark, mark, notes }
    }

    pub fn name(&self) -> (name: &str)
        ensures
            name@ == self@.name,
    {
        self.name.as_str()
    }

    pub fn provisional_mark(&self) -> (provisional_mark: Option<Mark>)
        ensures
            mark_view(provisional_mark) == self@.provisional_mark,
    {
        self.provisional_mark
    }

    pub fn mark(&self) -> (mark: Option<Mark>)
        ensures
            mark_view(mark) == self@.mark,
    {
        self.mark
    }

    pub fn notes(&self) -> (notes: Option<&str>)
        ensures
            match notes {
                Some(notes) => self@.notes == Some(notes@),
                None => self@.notes is None,
            },
    {
        match &self.notes {
            Some(notes) => Some(notes.as_str()),
            None => None,
        }
    }

    /// Replaces the awarded mark and keeps the rest.
    pub fn set_mark(&mut self, mark: Option<Mark>)
        ensures
            final(self)@ == (MetaView { mark: mark_view(mark), ..old(self)@ }),
    {
        self.mark = mark;
    }

    /// Whether this summary comes strictly before `other` in the display
    /// order.
    pub fn precedes(&self, other: &Self) -> (before: bool)
        ensures
            before == meta_precedes(self@, other@),
    {
        match mark_standing(self.mark, other.mark) {
            Standing::Before => true,
            Standing::After => false,
            Standing::Level => match mark_standing(self.provisional_mark, other.provisional_mark) {
                Standing::Before => true,
                Standing::After => false,
                Standing::Level => text_before(self.name.as_str(), other.name.as_str()),
            },
        }
    }
}

/// One of two summaries comes before the other unless they are equal, and
/// never both; and the order is transitive.
pub proof fn lemma_meta_order(a: MetaView, b: MetaView, c: MetaView)
    ensures
        !meta_precedes(a, a),
        !(meta_precedes(a, b) && meta_precedes(b, a)),
        !meta_equal(a, b) ==> meta_precedes(a, b) || meta_precedes(b, a),
        meta_equal(a, b) ==> !meta_precedes(a, b),
        meta_precedes(a, b) && meta_precedes(b, c) ==> meta_precedes(a, c),
        !meta_precedes(b, a) && !meta_precedes(c, b) ==> !meta_precedes(c, a),
{
    crate::order::lemma_text_irreflexive(a.name);
    crate::order::lemma_text_asymmetric(a.name, b.name);
    crate::order::lemma_text_total(a.name, b.name);
    crate::order::lemma_text_total(b.name, c.name);
    crate::order::lemma_text_total(a.name, c.name);
    crate::order::lemma_text_transitive(a.name, b.name, c.name);
    crate::order::lemma_text_transitive(c.name, b.name, a.name);
    crate::order::lemma_text_transitive(c.name, a.name, b.name);
    crate::order::lemma_text_transitive(b.name, c.name, a.name);
    crate::order::lemma_text_asymmetric(b.name, c.name);
    crate::order::lemma_text_asymmetric(a.name, c.name);
}

/// One file of a loaded submission: the id the backend gave it, the name
/// it is shown under, and the sealed buffer that holds its bytes.
#[derive(Debug)]
pub struct JournalFile {
    imark_id: usize,
    file_name: String,
    file_data: memfile::MemFile,
}

pub ghost struct FileView {
    pub imark_id: nat,
    pub file_name: Seq<char>,
}

impl View for JournalFile {
    type V = FileView;

    closed spec fn view(&self) -> FileView {
        FileView { imark_id: self.imark_id as nat, file_name: self.file_name@ }
    }
}

impl JournalFile {
    /// The buffer that the file holds.
    pub closed spec fn buffer(&self) -> memfile::MemFile {
        self.file_data
    }

    pub fn new(imark_id: usize, file_name: String, file_data: memfile::MemFile) -> (file: Self)
        ensures
            file@ == (FileView { imark_id: imark_id as nat, file_name: file_name@ }),
            file.buffer() == file_data,
    {
        JournalFile { imark_id, file_name, file_data }
    }

    pub fn file_name(&self) -> (file_name: &str)
        ensures
            file_name@ == self@.file_name,
    {
        self.file_name.as_str()
    }

    pub fn file_data(&self) -> (file_data: &memfile::MemFile)
        ensures
            *file_data == self.buffer(),
    {
        &self.file_data
    }

    pub fn imark_id(&self) -> (imark_id: usize)
        ensures
            imark_id == self@.imark_id,
    {
        self.imark_id
    }
}

/// Whether one of `files` is shown under `name`.
pub open spec fn has_file_named(files: Seq<JournalFile>, name: Seq<char>) -> bool {
    exists|i: int| 0 <= i < files.len() && (#[trigger] files[i])@.file_name == name
}

/// The place of the first of `files` that is shown under `name`; the number
/// of files where there is none.
pub open spec fn first_file_named(files: Seq<JournalFile>, name: Seq<char>) -> int
    decreases files.len(),
{
    if files.len() == 0 {
        0
    } else if files[0]@.file_name == name {
        0
    } else {
        1 + first_file_named(files.drop_first(), name)
    }
}

/// The first file under a name is a file under that name, where one exists.
pub proof fn lemma_first_file_named(files: Seq<JournalFile>, name: Seq<char>)
    ensures
        0 <= first_file_named(files, name) <= files.len(),
        has_file_named(files, name) <==> first_file_named(files, name) < files.len(),
        first_file_named(files, name) < files.len() ==> files[first_file_named(
            files,
            name,
        )]@.file_name == name,
    decreases files.len(),
{
    if files.len() > 0 {
        let rest = files.drop_first();
        lemma_first_file_named(rest, name);
        if files[0]@.file_name != name {
            if has_file_named(files, name) {
                let i = choose|i: int| 0 <= i < files.len() && (#[trigger] files[i])@.file_name == name;
                assert(rest[i - 1] == files[i]);
            }
            if has_file_named(rest, name) {
                let i = choose|i: int| 0 <= i < rest.len() && (#[trigger] rest[i])@.file_name == name;
                assert(files[i + 1] == rest[i]);
            }
            if first_file_named(rest, name) < rest.len() {
                assert(rest[first_file_named(rest, name)] == files[first_file_named(rest, name) + 1]);
            }
        }
    }
}

/// The highest id among `files`, zero where there are none.
pub open spec fn highest_id(files: Seq<JournalFile>) -> nat
    decreases files.len(),
{
    if files.len() == 0 {
        0
    } else {
        let before = highest_id(files.drop_last());
        if files.last()@.imark_id > before {
            files.last()@.imark_id
        } else {
            before
        }
    }
}

/// The files of a loaded submission: what the student handed in, and the
/// files that hold marks and feedback.
#[derive(Debug)]
pub struct JournalData {
    submission_files: Vec<JournalFile>,
    marking_files: Vec<JournalFile>,
}

impl JournalData {
    pub closed spec fn spec_submission_files(&self) -> Seq<JournalFile> {
        self.submission_files@
    }

    pub closed spec fn spec_marking_files(&self) -> Seq<JournalFile> {
        self.marking_files@
    }

    pub fn new(submission_files: Vec<JournalFile>, marking_files: Vec<JournalFile>) -> (data: Self)
        ensures
            data.spec_submission_files() == submission_files@,
            data.spec_marking_files() == marking_files@,
    {
        JournalData { submission_files, marking_files }
    }

    pub fn submission_files(&self) -> (files: &[JournalFile])
        ensures
            files@ == self.spec_submission_files(),
    {
        self.submission_files.as_slice()
    }

    pub fn marking_files(&self) -> (files: &[JournalFile])
        ensures
            files@ == self.spec_marking_files(),
    {
        self.marking_files.as_slice()
    }

    /// The first marking file shown under `name`.
    pub fn mark_file(&self, name: &str) -> (found: Option<&JournalFile>)
        ensures
            match found {
                Some(file) => {
                    &&& first_file_named(self.spec_marking_files(), name@)
                        < self.spec_marking_files().len()
                    &&& *file == self.spec_marking_files()[first_file_named(
                        self.spec_marking_files(),
                        name@,
                    )]
                },
                None => !has_file_named(self.spec_marking_files(), name@),
            },
    {
        let ghost files = self.marking_files@;
        let mut index: usize = 0;
        assert(files.skip(0) =~= files);
        while index < self.marking_files.len()
            invariant
                index <= self.marking_files@.len(),
                files == self.marking_files@,
                first_file_named(files, name@) == index + first_file_named(
                    files.skip(index as int),
                    name@,
                ),
                forall|j: int| 0 <= j < index ==> (#[trigger] files[j])@.file_name != name@,
            decreases self.marking_files.len() - index,
        {
            proof {
                assert(files.skip(index as int)[0] == files[index as int]);
                assert(files.skip(index as int).drop_first() =~= files.skip(index + 1));
            }
            if same_text(self.marking_files[index].file_name.as_str(), name) {
                return Some(&self.marking_files[index]);
            }
            index = index + 1;
        }
        None
    }

    /// The data of a freshly fetched submission. Where no marking file is
    /// shown under `mark_name`, one is added that holds `blank`, under an id
    /// one above the highest. There is no such id when the highest is the
    /// largest number the machine counts to.
    pub fn with_mark_file(
        submission_files: Vec<JournalFile>,
        marking_files: Vec<JournalFile>,
        mark_name: &str,
        blank: memfile::MemFile,
    ) -> (made: Option<Self>)
        ensures
            made is None <==> !has_file_named(marking_files@, mark_name@) && highest_id(
                marking_files@,
            ) == usize::MAX,
            match made {
                Some(data) => {
                    &&& data.spec_submission_files() == submission_files@
                    &&& has_file_named(data.spec_marking_files(), mark_name@)
                    &&& if has_file_named(marking_files@, mark_name@) {
                        data.spec_marking_files() == marking_files@
                    } else {
                        &&& data.spec_marking_files().len() == marking_files@.len() + 1
                        &&& data.spec_marking_files().drop_last() == marking_files@
                        &&& data.spec_marking_files().last()@ == (FileView {
                            imark_id: highest_id(marking_files@) + 1,
                            file_name: mark_name@,
                        })
                        &&& data.spec_marking_files().last().buffer() == blank
                    }
                },
                None => true,
            },
    {
        let mut marking_files = marking_files;
        let ghost fetched = marking_files@;
        let mut found: bool = false;
        let mut highest: usize = 0;
        let mut index: usize = 0;
        assert(fetched.take(0) =~= Seq::<JournalFile>::empty());
        while index < marking_files.len()
            invariant
                index <= marking_files@.len(),
                marking_files@ == fetched,
                found == has_file_named(fetched.take(index as int), mark_name@),
                highest == highest_id(fetched.take(index as int)),
            decreases marking_files.len() - index,
        {
            let ghost before = fetched.take(index as int);
            let ghost after = fetched.take(index + 1);
            proof {
                assert(after.drop_last() =~= before);
                assert(after.last() == fetched[index as int]);
            }
            let named: bool = same_text(marking_files[index].file_name.as_str(), mark_name);
            if marking_files[index].imark_id > highest {
                highest = marking_files[index].imark_id;
            }
            proof {
                if has_file_named(before, mark_name@) {
                    let i = choose|i: int|
                        0 <= i < before.len() && (#[trigger] before[i])@.file_name == mark_name@;
                    assert(after[i] == before[i]);
                }
                if named {
                    assert(after[index as int]@.file_name == mark_name@);
                }
                if has_file_named(after, mark_name@) && !named {
                    let i = choose|i: int|
                        0 <= i < after.len() && (#[trigger] after[i])@.file_name == mark_name@;
                    assert(before[i] == after[i]);
                }
            }
            found = found || named;
            index = index + 1;
        }
        proof {
            assert(fetched.take(index as int) =~= fetched);
        }
        if !found {
            if highest == usize::MAX {
                return None;
            }
            let mut name = String::new();
            name.append(mark_name);
            marking_files.push(JournalFile::new(highest + 1, name, blank));
            proof {
                assert(marking_files@.drop_last() =~= fetched);
                assert(marking_files@[marking_files@.len() - 1]@.file_name == mark_name@);
            }
        }
        Some(JournalData { submission_files, marking_files })
    }
}

/// A submission whose files are not in memory.
#[derive(Debug)]
pub struct UnloadedJournal {
    meta: JournalMeta,
}

impl UnloadedJournal {
    pub closed spec fn spec_meta(&self) -> JournalMeta {
        self.meta
    }

    pub fn new(meta: JournalMeta) -> (journal: Self)
        ensures
            journal.spec_meta() == meta,
    {
        UnloadedJournal { meta }
    }

    pub fn meta(&self) -> (meta: &JournalMeta)
        ensures
            *meta == self.spec_meta(),
    {
        &self.meta
    }
}

/// A submission with its files in memory.
#[derive(Debug)]
pub struct LoadedJournal {
    meta: JournalMeta,
    data: JournalData,
}

impl LoadedJournal {
    pub closed spec fn spec_meta(&self) -> JournalMeta {
        self.meta
    }

    pub closed spec fn spec_data(&self) -> JournalData {
        self.data
    }

    pub fn new(meta: JournalMeta, data: JournalData) -> (journal: Self)
        ensures
            journal.spec_meta() == meta,
            journal.spec_data() == data,
    {
        LoadedJournal { meta, data }
    }

    pub fn meta(&self) -> (meta: &JournalMeta)
        ensures
            *meta == self.spec_meta(),
    {
        &self.meta
    }

    pub fn data(&self) -> (data: &JournalData)
        ensures
            *data == self.spec_data(),
    {
        &self.data
    }
}

/// One submission in the phase of its life that it is in.
#[derive(Debug)]
pub enum Journal {
    Unloaded(UnloadedJournal),
    Loaded(LoadedJournal),
}

impl Journal {
    /// The summary, in either phase.
    pub open spec fn spec_meta(&self) -> JournalMeta {
        match *self {
            Journal::Unloaded(journal) => journal.spec_meta(),
            Journal::Loaded(journal) => journal.spec_meta(),
        }
    }

    /// The files, once loaded.
    pub open spec fn spec_data(&self) -> Option<JournalData> {
        match *self {
            Journal::Unloaded(_) => None,
            Journal::Loaded(journal) => Some(journal.spec_data()),
        }
    }

    pub fn meta(&self) -> (meta: &JournalMeta)
        ensures
            *meta == self.spec_meta(),
    {
        match self {
            Journal::Unloaded(journal) => journal.meta(),
            Journal::Loaded(journal) => journal.meta(),
        }
    }

    pub fn meta_mut(&mut self) -> (meta: &mut JournalMeta)
        ensures
            *meta == old(self).spec_meta(),
            final(self).spec_meta() == *final(meta),
            final(self).spec_data() == old(self).spec_data(),
    {
        match self {
            Journal::Unloaded(journal) => &mut journal.meta,
            Journal::Loaded(journal) => &mut journal.meta,
        }
    }

    pub fn data(&self) -> (data: Option<&JournalData>)
        ensures
            match data {
                Some(data) => self.spec_data() == Some(*data),
                None => self.spec_data() is None,
            },
    {
        match self {
            Journal::Unloaded(_) => None,
            Journal::Loaded(journal) => Some(journal.data()),
        }
    }

    pub fn data_mut(&mut self) -> (data: Option<&mut JournalData>)
        ensures
            match data {
                Some(data) => {
                    &&& old(self).spec_data() == Some(*data)
                    &&& final(self).spec_data() == Some(*final(data))
                    &&& final(self).spec_meta() == old(self).spec_meta()
                },
                None => old(self).spec_data() is None && *final(self) == *old(self),
            },
    {
        match self {
            Journal::Unloaded(_) => None,
            Journal::Loaded(journal) => Some(&mut journal.data),
        }
    }

    pub fn is_loaded(&self) -> (loaded: bool)
        ensures
            loaded == (*self is Loaded),
    {
        match self {
            Journal::Unloaded(_) => false,
            Journal::Loaded(_) => true,
        }
    }
}

} // verus!
