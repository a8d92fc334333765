//! Who may see which page.

use vstd::prelude::*;
use crate::text::str_equal;

verus! {

/// What to do with a request.
#[derive(Clone, Copy, Debug, PartialEq, Eq, Structural)]
pub enum AuthDecision {
    /// The request goes on.
    Proceed,
    /// The visitor is sent to the login page.
    RedirectToLogin,
}

/// `prefix` stands at the start of `s`.
pub open spec fn starts_with(s: Seq<char>, prefix: Seq<char>) -> bool {
    prefix.len() <= s.len() && s.take(prefix.len() as int) == prefix
}

/// Whether `prefix` stands at the start of `text`.
pub fn str_starts_with(text: &str, prefix: &str) -> (b: bool)
    ensures
        b == starts_with(text@, prefix@),
{
    let n: usize = prefix.unicode_len();
    if text.unicode_len() < n {
        return false;
    }
    let mut i: usize = 0;
    while i < n
        invariant
            i <= n,
            n == prefix@.len(),
            n <= text@.len(),
            forall|j: int| 0 <= j < i ==> text@[j] == prefix@[j],
        decreases n - i,
    {
        if text.get_char(i) != prefix.get_char(i) {
            assert(text@.take(n as int)[i as int] != prefix@[i as int]);
            return false;
        }
        i += 1;
    }
    assert(text@.take(n as int) =~= prefix@);
    true
}

/// The page may be seen without logging in: the login page, the requests
/// for logging in and out, and the files of the site.
pub open spec fn is_public(path: Seq<char>) -> bool {
    path == "/login"@ || starts_with(path, "/api/login"@) || starts_with(path, "/api/logout"@)
        || starts_with(path, "/pkg"@) || starts_with(path, "/style"@)
}

/// Whether the page may be seen without logging in.
pub fn is_public_path(path: &str) -> (b: bool)
    ensures
        b == is_public(path@),
{
    str_equal(path, "/login") || str_starts_with(path, "/api/login") || str_starts_with(
        path,
        "/api/logout",
    ) || str_starts_with(path, "/pkg") || str_starts_with(path, "/style")
}

/// What to do with a request for `path`, given what the session says of
/// the visitor: a public page is shown to everybody, any other page only to
/// a visitor whose session says that they have logged in.
pub fn require_auth(path: &str, authenticated: Option<bool>) -> (r: AuthDecision)
    ensures
        r == (if is_public(path@) || authenticated == Some(true) {
            AuthDecision::Proceed
        } else {
            AuthDecision::RedirectToLogin
        }),
{
    if is_public_path(path) {
        return AuthDecision::Proceed;
    }
    match authenticated {
        Some(true) => AuthDecision::Proceed,
        _ => AuthDecision::RedirectToLogin,
    }
}

/// The password that is expected where none is configured.
pub open spec fn default_password() -> Seq<char> {
    "admin123"@
}

/// Whether the password is the expected one: the configured password, or
/// the default where none is configured.
pub fn login(password: &str, configured: Option<&str>) -> (matched: bool)
    ensures
        matched == (password@ == (match configured {
            Some(expected) => expected@,
            None => default_password(),
        })),
{
    match configured {
        Some(expected) => str_equal(password, expected),
        None => str_equal(password, "admin123"),
    }
}

} // verus!
