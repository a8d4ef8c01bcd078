//! The login rules of the server and of the login page.
use vstd::prelude::*;
use crate::cover::same_text;
use crate::records::opt_text_view;

verus! {

/// The answer to a login request: whether it succeeded and, if so, the
/// session token.
pub struct LoginPerms {
    pub sucess: bool,
    pub token: Option<String>,
}

/// The server's login rule: only user `blarch` with password `password`
/// is let in, and receives the token `example_token`.
pub fn check_login(username: &str, password: &str) -> (r: LoginPerms)
    ensures
        r.sucess == (username@ == "blarch"@ && password@ == "password"@),
        opt_text_view(r.token) == (if r.sucess {
            Some("example_token"@)
        } else {
            None::<Seq<char>>
        }),
{
    if same_text(username, "blarch") && same_text(password, "password") {
        LoginPerms { sucess: true, token: Some("example_token".to_owned()) }
    } else {
        LoginPerms { sucess: false, token: None }
    }
}

/// What the login page does with a submitted form.
pub enum LoginOutcome {
    /// Go to the given page.
    Navigate(String),
    /// Stay and show the given message.
    Error(String),
}

/// The login page's rule: both fields must be filled in; user `name` with
/// password `blarch` goes to `/homepage`; anything else is refused.
pub open spec fn spec_login_form(username: Seq<char>, password: Seq<char>) -> (bool, Seq<char>) {
    if username.len() == 0 || password.len() == 0 {
        (false, "Please fill in all fields"@)
    } else if username == "name"@ && password == "blarch"@ {
        (true, "/homepage"@)
    } else {
        (false, "Invalid credentials"@)
    }
}

/// The outcome of submitting the login form, as (navigates, text): the page
/// to go to when it navigates, the message shown otherwise.
pub open spec fn outcome_view(o: LoginOutcome) -> (bool, Seq<char>) {
    match o {
        LoginOutcome::Navigate(p) => (true, p@),
        LoginOutcome::Error(m) => (false, m@),
    }
}

/// The outcome of submitting the login form.
pub fn login_form_outcome(username: &str, password: &str) -> (r: LoginOutcome)
    ensures
        outcome_view(r) == spec_login_form(username@, password@),
{
    if username.is_empty() || password.is_empty() {
        LoginOutcome::Error("Please fill in all fields".to_owned())
    } else if same_text(username, "name") && same_text(password, "blarch") {
        LoginOutcome::Navigate("/homepage".to_owned())
    } else {
        LoginOutcome::Error("Invalid credentials".to_owned())
    }
}

} // verus!
