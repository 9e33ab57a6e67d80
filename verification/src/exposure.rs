//! Content exposure: the names under which the files of a loaded submission
//! are made visible to the viewer, and the command that starts the viewer.
//!
//! Each file is linked, under its own name, to the descriptor of its sealed
//! buffer in this process. What is decided here is what to link and what to
//! run; making the links and running the command is the caller's part.

use vstd::prelude::*;
use vstd::string::StringExecFns;
use crate::imark::{JournalData, JournalFile};
use crate::text::{decimal, push_decimal};

verus! {

/// The decimal numeral of a whole number, with a minus sign where it is
/// negative.
pub open spec fn signed_decimal(n: int) -> Seq<char> {
    if n < 0 {
        seq!['-'] + decimal((-n) as nat)
    } else {
        decimal(n as nat)
    }
}

/// The path under which process `pid` sees its open descriptor `descriptor`.
pub open spec fn descriptor_path(pid: nat, descriptor: int) -> Seq<char> {
    "/proc/"@ + decimal(pid) + "/fd/"@ + signed_decimal(descriptor)
}

/// The path under which process `pid` sees its open descriptor `descriptor`.
pub fn link_target(pid: u32, descriptor: i32) -> (path: String)
    ensures
        path@ == descriptor_path(pid as nat, descriptor as int),
{
    let mut path = String::new();
    path.append("/proc/");
    push_decimal(&mut path, pid as u128);
    path.append("/fd/");
    if descriptor < 0 {
        path.push('-');
        let size: u128 = if descriptor == i32::MIN {
            2147483648
        } else {
            (-descriptor) as u128
        };
        push_decimal(&mut path, size);
    } else {
        push_decimal(&mut path, descriptor as u128);
    }
    proof {
        assert(path@ =~= descriptor_path(pid as nat, descriptor as int));
    }
    path
}

/// One link to make: `name`, in the working directory, pointing at `target`.
pub struct Link {
    pub name: String,
    pub target: String,
}

/// The files that are exposed, in the order in which the viewer shows them:
/// the submission's files, then the marking files.
pub open spec fn exposed_files(data: JournalData) -> Seq<JournalFile> {
    data.spec_submission_files() + data.spec_marking_files()
}

/// The viewer's command line after the names of `files` were added to
/// `command`, each behind a space.
pub open spec fn with_names(command: Seq<char>, files: Seq<JournalFile>) -> Seq<char>
    decreases files.len(),
{
    if files.len() == 0 {
        command
    } else {
        with_names(command, files.drop_last()) + seq![' '] + files.last()@.file_name
    }
}

fn push_names(command: &mut String, files: &[JournalFile])
    ensures
        final(command)@ == with_names(old(command)@, files@),
{
    let mut index: usize = 0;
    assert(files@.take(0) =~= Seq::<JournalFile>::empty());
    while index < files.len()
        invariant
            index <= files@.len(),
            command@ == with_names(old(command)@, files@.take(index as int)),
        decreases files.len() - index,
    {
        proof {
            assert(files@.take(index + 1).drop_last() =~= files@.take(index as int));
            assert(files@.take(index + 1).last() == files@[index as int]);
        }
        command.push(' ');
        command.append(files[index].file_name());
        index = index + 1;
    }
    proof {
        assert(files@.take(index as int) =~= files@);
    }
}

/// Adding the names of two lists of files in turn adds the names of the
/// joined list.
pub proof fn lemma_with_names_joined(
    command: Seq<char>,
    first: Seq<JournalFile>,
    second: Seq<JournalFile>,
)
    ensures
        with_names(with_names(command, first), second) == with_names(command, first + second),
    decreases second.len(),
{
    if second.len() == 0 {
        assert(first + second =~= first);
    } else {
        lemma_with_names_joined(command, first, second.drop_last());
        assert((first + second).drop_last() =~= first + second.drop_last());
        assert((first + second).last() == second.last());
    }
}

/// The command that shows a submission: the pager's command, then the name
/// of every exposed file.
pub fn viewer_command(pager_command: &str, data: &JournalData) -> (command: String)
    ensures
        command@ == with_names(pager_command@, exposed_files(*data)),
{
    let mut command = String::new();
    command.append(pager_command);
    assert(command@ =~= pager_command@);
    push_names(&mut command, data.submission_files());
    push_names(&mut command, data.marking_files());
    proof {
        lemma_with_names_joined(
            pager_command@,
            data.spec_submission_files(),
            data.spec_marking_files(),
        );
    }
    command
}

fn push_links(links: &mut Vec<Link>, files: &[JournalFile], pid: u32, descriptors: &Vec<i32>, from: usize)
    requires
        old(links)@.len() == from,
        from + files@.len() <= descriptors@.len(),
    ensures
        final(links)@.len() == from + files@.len(),
        forall|i: int| 0 <= i < from ==> final(links)@[i] == old(links)@[i],
        forall|i: int|
            0 <= i < files@.len() ==> {
                &&& (#[trigger] final(links)@[from + i]).name@ == files@[i]@.file_name
                &&& final(links)@[from + i].target@ == descriptor_path(
                    pid as nat,
                    descriptors@[from + i] as int,
                )
            },
{
    let mut index: usize = 0;
    let count: usize = descriptors.len();
    while index < files.len()
        invariant
            index <= files@.len(),
            count == descriptors@.len(),
            from + files@.len() <= descriptors@.len(),
            old(links)@.len() == from,
            links@.len() == from + index,
            forall|i: int| 0 <= i < from ==> links@[i] == old(links)@[i],
            forall|i: int|
                0 <= i < index ==> {
                    &&& (#[trigger] links@[from + i]).name@ == files@[i]@.file_name
                    &&& links@[from + i].target@ == descriptor_path(
                        pid as nat,
                        descriptors@[from + i] as int,
                    )
                },
        decreases files.len() - index,
    {
        let mut name = String::new();
        name.append(files[index].file_name());
        let target = link_target(pid, descriptors[from + index]);
        links.push(Link { name, target });
        index = index + 1;
    }
}

/// The links that expose `data` from process `pid`: one for each exposed
/// file, in order, from the file's name to the path of its descriptor.
/// `descriptors` holds the descriptor of each exposed file's buffer, in the
/// same order; with any other number of descriptors there is no plan.
pub fn links(data: &JournalData, pid: u32, descriptors: &Vec<i32>) -> (plan: Option<Vec<Link>>)
    ensures
        plan is Some <==> descriptors@.len() == exposed_files(*data).len(),
        match plan {
            Some(links) => {
                &&& links@.len() == exposed_files(*data).len()
                &&& forall|i: int|
                    0 <= i < links@.len() ==> {
                        &&& (#[trigger] links@[i]).name@ == exposed_files(*data)[i]@.file_name
                        &&& links@[i].target@ == descriptor_path(pid as nat, descriptors@[i] as int)
                    }
            },
            None => true,
        },
{
    let submitted = data.submission_files();
    let marking = data.marking_files();
    if descriptors.len() < submitted.len() || descriptors.len() - submitted.len() != marking.len() {
        return None;
    }
    let mut links: Vec<Link> = Vec::new();
    push_links(&mut links, submitted, pid, descriptors, 0);
    push_links(&mut links, marking, pid, descriptors, submitted.len());
    proof {
        let files = exposed_files(*data);
        assert forall|i: int| 0 <= i < links@.len() implies {
            &&& (#[trigger] links@[i]).name@ == files[i]@.file_name
            &&& links@[i].target@ == descriptor_path(pid as nat, descriptors@[i] as int)
        } by {
            if i >= submitted@.len() {
                let k = i - submitted@.len();
                assert(links@[submitted@.len() + k].name@ == marking@[k]@.file_name);
            } else {
                assert(links@[0 + i].name@ == submitted@[i]@.file_name);
            }
        }
    }
    Some(links)
}

/// The viewer's pane in the terminal multiplexer.
pub struct TmuxPane {
    pane_id: String,
}

impl View for TmuxPane {
    type V = Seq<char>;

    closed spec fn view(&self) -> Seq<char> {
        self.pane_id@
    }
}

impl TmuxPane {
    pub fn new(pane_id: String) -> (pane: Self)
        ensures
            pane@ == pane_id@,
    {
        TmuxPane { pane_id }
    }

    pub fn pane_id(&self) -> (pane_id: &str)
        ensures
            pane_id@ == self@,
    {
        self.pane_id.as_str()
    }
}

/// What to ask of the terminal multiplexer to show a submission.
pub enum ViewerRequest {
    /// Open a new pane that runs `command`.
    Spawn { command: String },
    /// Run `command` in the pane `pane_id`, in place of what runs there.
    Respawn { pane_id: String, command: String },
}

/// How to show a submission with `command`: in the pane that is there, or
/// in a new one where there is none yet.
pub fn viewer_request(pane: &Option<TmuxPane>, command: String) -> (request: ViewerRequest)
    ensures
        match *pane {
            Some(pane) => request matches ViewerRequest::Respawn { pane_id, command: asked }
                && pane_id@ == pane@ && asked == command,
            None => request matches ViewerRequest::Spawn { command: asked } && asked == command,
        },
{
    match pane {
        Some(pane) => {
            let mut pane_id = String::new();
            pane_id.append(pane.pane_id());
            assert(pane_id@ =~= pane@);
            ViewerRequest::Respawn { pane_id, command }
        },
        None => ViewerRequest::Spawn { command },
    }
}

} // verus!
