//! The settings of the server.

use vstd::prelude::*;
use vstd::string::StringExecFns;

verus! {

/// All the settings, by section.
#[derive(Debug)]
pub struct Config {
    pub server: Server,
    pub database: Database,
    pub github: GitHub,
}

/// Where the server listens, and the address under which it is reached.
#[derive(Debug)]
pub struct Server {
    pub addr: String,
    pub root_url: String,
}

/// Where the database is.
#[derive(Debug)]
pub struct Database {
    pub url: String,
}

/// How the server is known to GitHub.
#[derive(Debug)]
pub struct GitHub {
    pub client_id: String,
    pub client_secret: String,
}

/// The address at GitHub where a user grants access, with the query that
/// names the client and the place to come back to.
pub open spec fn login_location_of(client_id: Seq<char>, redirect_uri: Seq<char>) -> Seq<char> {
    "https://github.com/login/oauth/authorize"@ + "?client_id="@ + client_id
        + "&scope=read:user,user:email&redirect_uri="@ + redirect_uri
}

impl GitHub {
    /// The address to which a user who wants to log in is sent. Neither the
    /// client's name nor `redirect_uri` is changed on the way into it.
    pub fn login_location(&self, redirect_uri: &str) -> (location: String)
        ensures
            location@ == login_location_of(self.client_id@, redirect_uri@),
    {
        let mut location = String::from_str("https://github.com/login/oauth/authorize");
        location.append("?client_id=");
        location.append(self.client_id.as_str());
        location.append("&scope=read:user,user:email&redirect_uri=");
        location.append(redirect_uri);
        location
    }
}

} // verus!
