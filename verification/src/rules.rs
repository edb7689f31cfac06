//! The format rules for the fields of a registration: what each field must
//! look like, and the issue recorded where it does not.

use crate::report::{IssueView, ValidationReport};
use crate::text::{same_text, trim, trimmed};
use vstd::prelude::*;

verus! {

/// What the `regex` crate answers when asked whether `pattern` matches in
/// `text`: `None` where it does not take `pattern` for a regular expression,
/// else whether there is a match anywhere in `text`.
///
/// The answer depends on the pattern and the text alone. It is the answer of
/// this build of the library: a pattern is refused for its syntax or for the
/// size of what it compiles to, and that size is counted in bytes of
/// structures whose size follows the target.
pub uninterp spec fn regex_verdict(pattern: Seq<char>, text: Seq<char>) -> Option<bool>;

/// Whether `pattern` is a regular expression that has a match anywhere in
/// `text`.
pub open spec fn regex_matches(pattern: Seq<char>, text: Seq<char>) -> bool {
    regex_verdict(pattern, text) == Some(true)
}

/// Compiles `pattern` with the `regex` crate's `Regex::new` and asks
/// `Regex::is_match` whether it matches in `text`; `None` where the pattern
/// is not compiled. The contract claims that the answer is a function of the
/// pattern and the text.
#[verifier::external_body]
fn pattern_verdict(pattern: &str, text: &str) -> (verdict: Option<bool>)
    ensures
        verdict == regex_verdict(pattern@, text@),
{
    match regex::Regex::new(pattern) {
        Ok(compiled) => Some(compiled.is_match(text)),
        Err(_) => None,
    }
}

/// The regular expressions that a user name, a password and an email
/// address must match.
#[derive(Debug, PartialEq, Eq)]
pub struct FormatRules {
    pub username: String,
    pub password: String,
    pub email: String,
}

/// A `FormatRules` as contracts speak of it.
pub struct FormatRulesView {
    pub username: Seq<char>,
    pub password: Seq<char>,
    pub email: Seq<char>,
}

impl View for FormatRules {
    type V = FormatRulesView;

    open spec fn view(&self) -> FormatRulesView {
        FormatRulesView { username: self.username@, password: self.password@, email: self.email@ }
    }
}

/// The fewest characters of a trimmed password.
pub const PASSWORD_MIN_LEN: usize = 8;

/// The most characters of a trimmed password.
pub const PASSWORD_MAX_LEN: usize = 16;

/// An issue about `field`.
pub open spec fn issue(field: &str, message: &str) -> IssueView {
    IssueView { field: field@, message: message@ }
}

/// The issue with a user name, if there is one. `accepted` tells whether the
/// trimmed name matched the rule for user names.
pub open spec fn username_issue(username: Seq<char>, accepted: bool) -> Option<IssueView> {
    if trimmed(username).len() == 0 {
        Some(issue("username", "empty username is not allowed"))
    } else if !accepted {
        Some(issue("username", "invalid username"))
    } else {
        None
    }
}

/// The issue with a password, if there is one: the trimmed password must
/// have from `PASSWORD_MIN_LEN` to `PASSWORD_MAX_LEN` characters and match
/// the rule for passwords. `accepted` tells whether it matched the rule.
pub open spec fn password_issue(password: Seq<char>, accepted: bool) -> Option<IssueView> {
    let p = trimmed(password);
    if p.len() == 0 {
        Some(issue("password", "empty password is not allowed"))
    } else if p.len() < PASSWORD_MIN_LEN || p.len() > PASSWORD_MAX_LEN || !accepted {
        Some(
            issue(
                "password",
                "your password is too weak or the length is not in the range [8,16]",
            ),
        )
    } else {
        None
    }
}

/// The issue with the repeated password, if there is one.
pub open spec fn confirm_password_issue(password: Seq<char>, confirm_password: Seq<char>) -> Option<
    IssueView,
> {
    if trimmed(confirm_password).len() == 0 {
        Some(issue("confirm_password", "empty password is not allowed"))
    } else if trimmed(confirm_password) != trimmed(password) {
        Some(issue("confirm_password", "confirm password not match the password"))
    } else {
        None
    }
}

/// The issue with an email address, if one was given and there is an issue
/// with it. `accepted` tells whether the trimmed address matched the rule
/// for email addresses.
pub open spec fn email_issue(email: Option<Seq<char>>, accepted: bool) -> Option<IssueView> {
    match email {
        Some(e) => if trimmed(e).len() == 0 || !accepted {
            Some(issue("email", "not a valid email address"))
        } else {
            None
        },
        None => None,
    }
}

/// A list of the one issue, or of none.
pub open spec fn listed(found: Option<IssueView>) -> Seq<IssueView> {
    match found {
        Some(i) => seq![i],
        None => Seq::empty(),
    }
}

/// Asks whether `text` matches `pattern`. A pattern that is not a regular
/// expression accepts nothing.
pub fn pattern_accepts(pattern: &str, text: &str) -> (accepted: bool)
    ensures
        accepted == regex_matches(pattern@, text@),
{
    verdict_accepts(pattern_verdict(pattern, text))
}

/// What a verdict comes to: accepted only where there is a verdict and it
/// is a match.
pub fn verdict_accepts(verdict: Option<bool>) -> (accepted: bool)
    ensures
        accepted == (verdict == Some(true)),
{
    match verdict {
        Some(matched) => matched,
        None => false,
    }
}

/// Checks a user name and records the issue with it, if there is one.
pub fn check_username(report: &mut ValidationReport, username: &str, accepted: bool)
    ensures
        final(report)@ == old(report)@ + listed(username_issue(username@, accepted)),
{
    if trim(username).is_empty() {
        report.append("username", "empty username is not allowed");
    } else if !accepted {
        report.append("username", "invalid username");
    }
    assert(report@ =~= old(report)@ + listed(username_issue(username@, accepted)));
}

/// Checks a password and records the issue with it, if there is one.
pub fn check_password(report: &mut ValidationReport, password: &str, accepted: bool)
    ensures
        final(report)@ == old(report)@ + listed(password_issue(password@, accepted)),
{
    let n = trim(password).unicode_len();
    if n == 0 {
        report.append("password", "empty password is not allowed");
    } else if n < PASSWORD_MIN_LEN || n > PASSWORD_MAX_LEN || !accepted {
        report.append(
            "password",
            "your password is too weak or the length is not in the range [8,16]",
        );
    }
    assert(report@ =~= old(report)@ + listed(password_issue(password@, accepted)));
}

/// Checks the repeated password against the password and records the issue
/// with it, if there is one.
pub fn check_confirm_password(report: &mut ValidationReport, password: &str, confirm_password: &str)
    ensures
        final(report)@ == old(report)@ + listed(
            confirm_password_issue(password@, confirm_password@),
        ),
{
    let c = trim(confirm_password);
    if c.is_empty() {
        report.append("confirm_password", "empty password is not allowed");
    } else if !same_text(c, trim(password)) {
        report.append("confirm_password", "confirm password not match the password");
    }
    assert(report@ =~= old(report)@ + listed(
        confirm_password_issue(password@, confirm_password@),
    ));
}

/// Checks an email address, where one was given, and records the issue with
/// it, if there is one.
pub fn check_email(report: &mut ValidationReport, email: Option<&str>, accepted: bool)
    ensures
        final(report)@ == old(report)@ + listed(
            email_issue(
                match email {
                    Some(e) => Some(e@),
                    None => None,
                },
                accepted,
            ),
        ),
{
    let ghost given = match email {
        Some(e) => Some(e@),
        None => None,
    };
    match email {
        Some(e) => {
            if trim(e).is_empty() || !accepted {
                report.append("email", "not a valid email address");
            }
        },
        None => {},
    }
    assert(report@ =~= old(report)@ + listed(email_issue(given, accepted)));
}

} // verus!
