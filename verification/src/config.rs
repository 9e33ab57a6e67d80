//! What a run is configured with, as far as it is decided and not looked
//! up: where the backend is, which pager shows the files, and how a list's
//! cursor wraps around.

use vstd::prelude::*;
use vstd::string::StringExecFns;

verus! {

/// The address of a course's marking backend in a session.
pub open spec fn course_endpoint(course: Seq<char>, session: Seq<char>) -> Seq<char> {
    "https://cgi.cse.unsw.edu.au/~"@ + course + "/"@ + session + "/imark/server.cgi/"@
}

/// The address of the marking backend: the one that was given, or else the
/// one of the course in the session.
pub fn get_cgi_endpoint(cgi_endpoint: Option<String>, course: &str, session: &str) -> (endpoint: String)
    ensures
        endpoint@ == match cgi_endpoint {
            Some(given) => given@,
            None => course_endpoint(course@, session@),
        },
{
    match cgi_endpoint {
        Some(given) => given,
        None => {
            let mut endpoint = String::new();
            endpoint.append("https://cgi.cse.unsw.edu.au/~");
            endpoint.append(course);
            endpoint.append("/");
            endpoint.append(session);
            endpoint.append("/imark/server.cgi/");
            proof {
                assert(endpoint@ =~= course_endpoint(course@, session@));
            }
            endpoint
        },
    }
}

/// Which pagers were found on the machine.
pub struct PagersFound {
    /// `bat` as the course installs it.
    pub course_bat: bool,
    /// `bat` on the search path.
    pub bat: bool,
    /// `less` on the search path.
    pub less: bool,
}

/// The command of the pager: the one that was given; else the course's
/// `bat`, `bat`, or `less`, whichever is found first in this order, the
/// first two told to page always. There is none if nothing was given and
/// nothing found.
pub open spec fn pager_choice(given: Option<Seq<char>>, found: PagersFound) -> Option<Seq<char>> {
    match given {
        Some(command) => Some(command),
        None => if found.course_bat {
            Some("/home/cs6991/bin/bat --paging=always"@)
        } else if found.bat {
            Some("bat --paging=always"@)
        } else if found.less {
            Some("less"@)
        } else {
            None
        },
    }
}

/// What a pager command, or the lack of one, is as a value.
pub open spec fn command_view(command: Option<String>) -> Option<Seq<char>> {
    match command {
        Some(command) => Some(command@),
        None => None,
    }
}

/// The command of the pager.
pub fn locate_pager(pager_command: Option<String>, found: PagersFound) -> (command: Option<String>)
    ensures
        command_view(command) == pager_choice(command_view(pager_command), found),
{
    match pager_command {
        Some(command) => Some(command),
        None => {
            let mut command = String::new();
            if found.course_bat {
                command.append("/home/cs6991/bin/bat --paging=always");
            } else if found.bat {
                command.append("bat --paging=always");
            } else if found.less {
                command.append("less");
            } else {
                return None;
            }
            Some(command)
        },
    }
}

/// The place after `current` in a list of `count` entries, the first after
/// the last.
pub fn wrap_next(current: usize, count: usize) -> (next: usize)
    requires
        current < count,
    ensures
        next == (current as int + 1) % (count as int),
{
    if count - current == 1 {
        proof {
            vstd::arithmetic::div_mod::lemma_mod_self_0(count as int);
        }
        0
    } else {
        proof {
            vstd::arithmetic::div_mod::lemma_small_mod((current + 1) as nat, count as nat);
        }
        current + 1
    }
}

/// The place before `current` in a list of `count` entries, the last before
/// the first.
pub fn wrap_prev(current: usize, count: usize) -> (prev: usize)
    requires
        current < count,
    ensures
        prev == (current as int + count - 1) % (count as int),
{
    proof {
        vstd::arithmetic::div_mod::lemma_mod_add_multiples_vanish(current - 1, count as int);
    }
    if current == 0 {
        proof {
            vstd::arithmetic::div_mod::lemma_small_mod((count - 1) as nat, count as nat);
        }
        count - 1
    } else {
        proof {
            vstd::arithmetic::div_mod::lemma_small_mod((current - 1) as nat, count as nat);
        }
        current - 1
    }
}

} // verus!
