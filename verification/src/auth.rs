//! Signing in: the credentials as they are typed, and the request that
//! checks them by asking the backend for the operator's assignments.

use vstd::prelude::*;
use vstd::string::StringExecFns;
use crate::imark::Authentication;
use crate::marking::AppMarking;
use crate::screens::AppJournalList;

verus! {

/// A user name and a password.
#[derive(Debug)]
pub struct BasicAuth {
    username: String,
    password: String,
}

impl View for BasicAuth {
    type V = (Seq<char>, Seq<char>);

    closed spec fn view(&self) -> (Seq<char>, Seq<char>) {
        (self.username@, self.password@)
    }
}

impl Clone for BasicAuth {
    fn clone(&self) -> (copy: Self)
        ensures
            copy@ == self@,
    {
        BasicAuth { username: self.username.clone(), password: self.password.clone() }
    }
}

impl BasicAuth {
    pub fn new(username: String, password: String) -> (auth: Self)
        ensures
            auth@ == (username@, password@),
    {
        BasicAuth { username, password }
    }

    pub fn username(&self) -> (username: &str)
        ensures
            username@ == self@.0,
    {
        self.username.as_str()
    }

    pub fn password(&self) -> (password: &str)
        ensures
            password@ == self@.1,
    {
        self.password.as_str()
    }

    /// The same credentials, as the store's jobs carry them.
    pub fn into_authentication(self) -> (auth: Authentication)
        ensures
            auth@ == self@,
    {
        Authentication::new(self.username, self.password)
    }
}

/// What signing in brings: the assignments that the operator may mark.
pub struct AuthTaskOutput {
    pub assignments: Vec<String>,
}

/// The address of the list of assignments at the backend.
pub open spec fn assignments_url(cgi_endpoint: Seq<char>) -> Seq<char> {
    cgi_endpoint + "/api/v1/assignments/"@
}

/// The request that signs in.
pub struct AuthenticateTask {
    imark_cgi_endpoint: String,
    zid: String,
    password: String,
}

impl AuthenticateTask {
    pub closed spec fn spec_endpoint(&self) -> Seq<char> {
        self.imark_cgi_endpoint@
    }

    pub closed spec fn spec_credentials(&self) -> (Seq<char>, Seq<char>) {
        (self.zid@, self.password@)
    }

    pub fn new(imark_cgi_endpoint: String, zid: String, password: String) -> (task: Self)
        ensures
            task.spec_endpoint() == imark_cgi_endpoint@,
            task.spec_credentials() == (zid@, password@),
    {
        AuthenticateTask { imark_cgi_endpoint, zid, password }
    }

    /// The address to ask for the assignments.
    pub fn endpoint(&self) -> (url: String)
        ensures
            url@ == assignments_url(self.spec_endpoint()),
    {
        let mut url = String::new();
        url.append(self.imark_cgi_endpoint.as_str());
        url.append("/api/v1/assignments/");
        proof {
            assert(url@ =~= assignments_url(self.spec_endpoint()));
        }
        url
    }

    /// The credentials to ask with.
    pub fn credentials(&self) -> (auth: BasicAuth)
        ensures
            auth@ == self.spec_credentials(),
    {
        BasicAuth::new(self.zid.clone(), self.password.clone())
    }
}

/// What a load needs to know of the screen that asks for it: where the
/// backend is, and who asks.
pub struct JournalLoadApp {
    cgi_endpoint: String,
    auth: Authentication,
}

impl JournalLoadApp {
    pub closed spec fn spec_endpoint(&self) -> Seq<char> {
        self.cgi_endpoint@
    }

    pub closed spec fn spec_auth(&self) -> (Seq<char>, Seq<char>) {
        self.auth@
    }

    pub fn new(cgi_endpoint: String, auth: Authentication) -> (app: Self)
        ensures
            app.spec_endpoint() == cgi_endpoint@,
            app.spec_auth() == auth@,
    {
        JournalLoadApp { cgi_endpoint, auth }
    }

    /// What a load asked from the marking screen `app` needs to know.
    pub fn from_marking(app: &AppMarking) -> (load: Self)
        ensures
            load.spec_endpoint() == app@.globals.cgi_endpoint,
            load.spec_auth() == app@.auth,
    {
        let mut cgi_endpoint = String::new();
        cgi_endpoint.append(app.globals().cgi_endpoint());
        assert(cgi_endpoint@ =~= app@.globals.cgi_endpoint);
        JournalLoadApp { cgi_endpoint, auth: app.auth().clone() }
    }

    /// What a load asked from the list screen `app` needs to know.
    pub fn from_journal_list(app: &AppJournalList) -> (load: Self)
        ensures
            load.spec_endpoint() == app@.globals.cgi_endpoint,
            load.spec_auth() == app@.auth,
    {
        JournalLoadApp {
            cgi_endpoint: app.globals().cgi_endpoint().to_owned(),
            auth: app.auth().clone(),
        }
    }

    pub fn cgi_endpoint(&self) -> (cgi_endpoint: &str)
        ensures
            cgi_endpoint@ == self.spec_endpoint(),
    {
        self.cgi_endpoint.as_str()
    }

    pub fn auth(&self) -> (auth: &Authentication)
        ensures
            auth@ == self.spec_auth(),
    {
        &self.auth
    }
}

} // verus!
