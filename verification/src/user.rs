//! The three requests about users: logging in, registering, and asking who
//! a user is. Each is decided here from plain values; reading and writing
//! the account store is left to the caller, who hands in what the store
//! answered.

use crate::account::{Account, NewAccount, NewAccountView, User};
use crate::error::AuthError;
use crate::report::{
    grouped, lemma_grouped_holds, lemma_grouped_step, FieldErrorsView, IssueView, ValidationError,
    ValidationReport,
};
use crate::rules::{
    check_confirm_password, check_email, check_password, check_username, confirm_password_issue,
    email_issue, listed, password_issue, pattern_accepts, regex_matches, username_issue,
    FormatRules, FormatRulesView, PASSWORD_MAX_LEN, PASSWORD_MIN_LEN,
};
use crate::text::{lemma_trimmed_idempotent, optional_text, same_text, trim, trimmed};
use crate::token::{decoded, encoded, DecodeError, Identity, Token};
use vstd::prelude::*;

verus! {

/// The requests that read: logging in, and asking who a user is.
#[derive(Debug, Default)]
pub struct UserQuery;

/// What a user hands in to log in.
#[derive(Debug, PartialEq, Eq)]
pub struct LoginInput {
    /// A user name or an email address.
    pub account: String,
    pub password: String,
}

/// The requests that write: registering.
#[derive(Debug, Default)]
pub struct UserMutation;

/// What a user hands in to register.
#[derive(Debug, PartialEq, Eq)]
pub struct RegisterInput {
    pub username: String,
    pub email: Option<String>,
    pub password: String,
    pub confirm_password: String,
}

/// A `RegisterInput` as contracts speak of it.
pub struct RegisterInputView {
    pub username: Seq<char>,
    pub email: Option<Seq<char>>,
    pub password: Seq<char>,
    pub confirm_password: Seq<char>,
}

impl View for RegisterInput {
    type V = RegisterInputView;

    open spec fn view(&self) -> RegisterInputView {
        RegisterInputView {
            username: self.username@,
            email: optional_text(self.email),
            password: self.password@,
            confirm_password: self.confirm_password@,
        }
    }
}

/// Which of the three format rules accepted its field.
#[derive(Debug, Clone, Copy, PartialEq, Eq)]
pub struct PatternVerdicts {
    pub username: bool,
    pub password: bool,
    pub email: bool,
}

/// The verdicts that the format rules give on the fields of `input`, each
/// field in its trimmed form. Without an email address, none is accepted.
pub open spec fn verdicts_of(input: RegisterInputView, rules: FormatRulesView) -> PatternVerdicts {
    PatternVerdicts {
        username: regex_matches(rules.username, trimmed(input.username)),
        password: regex_matches(rules.password, trimmed(input.password)),
        email: match input.email {
            Some(e) => regex_matches(rules.email, trimmed(e)),
            None => false,
        },
    }
}

/// All the issues of a registration: those of the user name, of the
/// password, of the repeated password and of the email address, in this
/// order.
pub open spec fn registration_issues(input: RegisterInputView, verdicts: PatternVerdicts) -> Seq<
    IssueView,
> {
    listed(username_issue(input.username, verdicts.username)) + listed(
        password_issue(input.password, verdicts.password),
    ) + listed(confirm_password_issue(input.password, input.confirm_password)) + listed(
        email_issue(input.email, verdicts.email),
    )
}

/// The account that a registration without issues asks for: the user name
/// and the password trimmed, and the email address as it was given.
pub open spec fn account_asked_for(input: RegisterInputView) -> NewAccountView {
    NewAccountView {
        username: trimmed(input.username),
        email: input.email,
        password: trimmed(input.password),
    }
}

/// Whether `r` is what a registration comes to under `verdicts`: the account
/// asked for where no field has an issue, else the error that lists every
/// issue field by field.
pub open spec fn decided_under(
    r: Result<NewAccount, ValidationError>,
    input: RegisterInputView,
    verdicts: PatternVerdicts,
) -> bool {
    match r {
        Ok(account) => registration_issues(input, verdicts).len() == 0 && account@
            == account_asked_for(input),
        Err(e) => registration_issues(input, verdicts).len() > 0 && e@ == grouped(
            registration_issues(input, verdicts),
        ),
    }
}

/// The error that holds one message about one field.
pub open spec fn single_error(field: &str, message: &str) -> Seq<FieldErrorsView> {
    seq![FieldErrorsView { field: field@, messages: seq![message@] }]
}

/// What asking for a user comes to before the store is read.
#[derive(Debug, PartialEq, Eq)]
pub enum IdentityAnswer {
    /// The user is the one named in the caller's own token.
    Known(User),
    /// The user is the one with this number in the store.
    Lookup(i32),
}

/// One issue alone makes an error of one entry.
proof fn lemma_grouped_single(i: IssueView)
    ensures
        grouped(seq![i]) == seq![FieldErrorsView { field: i.field, messages: seq![i.message] }],
{
    let one = seq![i];
    assert(one.drop_last() =~= Seq::<IssueView>::empty());
    lemma_grouped_step(one);
    assert(grouped(Seq::<IssueView>::empty()) =~= Seq::<FieldErrorsView>::empty());
    assert(grouped(one) =~= seq![FieldErrorsView { field: i.field, messages: seq![i.message] }]);
}

/// No check stops the others: the list of issues holds the issue of every
/// field that has one, and nothing else.
pub proof fn lemma_every_issue_listed(input: RegisterInputView, verdicts: PatternVerdicts)
    ensures
        ({
            let all = registration_issues(input, verdicts);
            let username = username_issue(input.username, verdicts.username);
            let password = password_issue(input.password, verdicts.password);
            let confirm = confirm_password_issue(input.password, input.confirm_password);
            let email = email_issue(input.email, verdicts.email);
            &&& username matches Some(i) ==> all.contains(i)
            &&& password matches Some(i) ==> all.contains(i)
            &&& confirm matches Some(i) ==> all.contains(i)
            &&& email matches Some(i) ==> all.contains(i)
            &&& all.len() == listed(username).len() + listed(password).len() + listed(
                confirm,
            ).len() + listed(email).len()
        }),
{
    let username = listed(username_issue(input.username, verdicts.username));
    let password = listed(password_issue(input.password, verdicts.password));
    let confirm = listed(confirm_password_issue(input.password, input.confirm_password));
    let email = listed(email_issue(input.email, verdicts.email));
    let all = registration_issues(input, verdicts);
    if username.len() > 0 {
        assert(all[0] == username[0]);
    }
    if password.len() > 0 {
        assert(all[username.len() as int] == password[0]);
    }
    if confirm.len() > 0 {
        assert(all[(username.len() + password.len()) as int] == confirm[0]);
    }
    if email.len() > 0 {
        assert(all[(username.len() + password.len() + confirm.len()) as int] == email[0]);
    }
}

/// Every issue listed is in the error: the entry of its field is there and
/// holds its message.
pub proof fn lemma_every_issue_in_error(
    input: RegisterInputView,
    verdicts: PatternVerdicts,
    found: IssueView,
)
    requires
        registration_issues(input, verdicts).contains(found),
    ensures
        exists|k: int|
            0 <= k < grouped(registration_issues(input, verdicts)).len() && (#[trigger] grouped(
                registration_issues(input, verdicts),
            )[k]).field == found.field && grouped(
                registration_issues(input, verdicts),
            )[k].messages.contains(found.message),
{
    let all = registration_issues(input, verdicts);
    let at = choose|at: int| 0 <= at < all.len() && all[at] == found;
    lemma_grouped_holds(all, at);
}

/// What holds of a registration without issues: the account asked for has a
/// user name, its password is within the length limits and was repeated, and
/// the format rules accepted each field that was given.
pub proof fn lemma_account_without_issues(input: RegisterInputView, verdicts: PatternVerdicts)
    requires
        registration_issues(input, verdicts).len() == 0,
    ensures
        account_asked_for(input).username.len() > 0,
        PASSWORD_MIN_LEN <= account_asked_for(input).password.len() <= PASSWORD_MAX_LEN,
        trimmed(input.confirm_password) == account_asked_for(input).password,
        verdicts.username,
        verdicts.password,
        input.email matches Some(e) ==> verdicts.email && trimmed(e).len() > 0,
{
    lemma_every_issue_listed(input, verdicts);
}

/// The input with its user name and its two passwords trimmed.
pub open spec fn trimmed_input(input: RegisterInputView) -> RegisterInputView {
    RegisterInputView {
        username: trimmed(input.username),
        email: input.email,
        password: trimmed(input.password),
        confirm_password: trimmed(input.confirm_password),
    }
}

/// Checking trimmed values once more changes nothing: the rules give the
/// same verdicts on them, the same issues are found, and the same account is
/// asked for. So a registration and the registration of its trimmed input
/// come to the same.
pub proof fn lemma_validation_idempotent(
    input: RegisterInputView,
    verdicts: PatternVerdicts,
    rules: FormatRulesView,
)
    ensures
        verdicts_of(trimmed_input(input), rules) == verdicts_of(input, rules),
        registration_issues(trimmed_input(input), verdicts) == registration_issues(input, verdicts),
        account_asked_for(trimmed_input(input)) == account_asked_for(input),
{
    lemma_trimmed_idempotent(input.username);
    lemma_trimmed_idempotent(input.password);
    lemma_trimmed_idempotent(input.confirm_password);
}

/// Input of which every field passes has no issue under the verdicts that
/// the rules give: a user name that is not empty and matches its rule, a
/// password within the length limits that matches its rule and was
/// repeated, and no email address or one that is not empty and matches its
/// rule, each in its trimmed form.
pub proof fn lemma_passing_input_has_no_issue(input: RegisterInputView, rules: FormatRulesView)
    requires
        trimmed(input.username).len() > 0,
        regex_matches(rules.username, trimmed(input.username)),
        PASSWORD_MIN_LEN <= trimmed(input.password).len() <= PASSWORD_MAX_LEN,
        regex_matches(rules.password, trimmed(input.password)),
        trimmed(input.confirm_password) == trimmed(input.password),
        input.email matches Some(e) ==> trimmed(e).len() > 0 && regex_matches(
            rules.email,
            trimmed(e),
        ),
    ensures
        registration_issues(input, verdicts_of(input, rules)) == Seq::<IssueView>::empty(),
{
    assert(registration_issues(input, verdicts_of(input, rules)) =~= Seq::<IssueView>::empty());
}

/// A field has an issue exactly when it fails, under the verdicts that the
/// rules give: the user name when it is empty or misses its rule; the
/// password when it is empty, outside the length limits or misses its rule;
/// the repeated password when it is empty or another than the password; the
/// email address when one is given and it is empty or misses its rule. Each
/// in its trimmed form.
pub proof fn lemma_issue_where_field_fails(input: RegisterInputView, rules: FormatRulesView)
    ensures
        ({
            let verdicts = verdicts_of(input, rules);
            let u = trimmed(input.username);
            let p = trimmed(input.password);
            let c = trimmed(input.confirm_password);
            &&& username_issue(input.username, verdicts.username) is Some <==> u.len() == 0
                || !regex_matches(rules.username, u)
            &&& password_issue(input.password, verdicts.password) is Some <==> p.len()
                < PASSWORD_MIN_LEN || p.len() > PASSWORD_MAX_LEN || !regex_matches(
                rules.password,
                p,
            )
            &&& confirm_password_issue(input.password, input.confirm_password) is Some <==> c.len()
                == 0 || c != p
            &&& email_issue(input.email, verdicts.email) is Some <==> (input.email matches Some(e)
                && (trimmed(e).len() == 0 || !regex_matches(rules.email, trimmed(e))))
        }),
{
}

/// A registration under the rules is refused exactly when some field
/// fails, and its trimmed input is decided in the same way.
pub proof fn lemma_registration_decided(
    r: Result<NewAccount, ValidationError>,
    input: RegisterInputView,
    rules: FormatRulesView,
)
    requires
        decided_under(r, input, verdicts_of(input, rules)),
    ensures
        ({
            let verdicts = verdicts_of(input, rules);
            r is Err <==> username_issue(input.username, verdicts.username) is Some
                || password_issue(input.password, verdicts.password) is Some
                || confirm_password_issue(input.password, input.confirm_password) is Some
                || email_issue(input.email, verdicts.email) is Some
        }),
        decided_under(r, trimmed_input(input), verdicts_of(trimmed_input(input), rules)),
{
    lemma_every_issue_listed(input, verdicts_of(input, rules));
    lemma_validation_idempotent(input, verdicts_of(input, rules), rules);
}

impl UserQuery {
    /// Decides a login from what the store answered when asked for the
    /// account whose user name or email address is `input.account`.
    ///
    /// A token for the account is given where the store found the account
    /// of that name and its password is the one handed in. Where the
    /// password is another, or there is no account of that name, the error
    /// names the field. A failure of the store is handed on.
    pub fn log_in<E>(
        &self,
        input: LoginInput,
        found: Result<Option<Account>, E>,
        secret: &str,
    ) -> (r: Result<String, AuthError<E>>)
        ensures
            match found {
                Err(e) => r == Err::<String, AuthError<E>>(AuthError::Store(e)),
                Ok(Some(account)) if account@.answers_to(input.account@) => if account.password@
                    == input.password@ {
                    r matches Ok(text) && text@ == encoded(account@.identity(), secret@)
                        && decoded(text@, secret@) == Ok::<Identity, DecodeError>(
                        account@.identity(),
                    )
                } else {
                    r matches Err(AuthError::Validation(v)) && v@ == single_error(
                        "password",
                        "wrong password",
                    )
                },
                _ => r matches Err(AuthError::Validation(v)) && v@ == single_error(
                    "account",
                    "user not found",
                ),
            },
    {
        let mut report = ValidationReport::new();
        match found {
            Err(e) => {
                return Err(AuthError::Store(e));
            },
            Ok(Some(account)) => {
                if !account.answers_to(input.account.as_str()) {
                    report.append("account", "user not found");
                } else if same_text(account.password.as_str(), input.password.as_str()) {
                    return Ok(account.token().encode(secret));
                } else {
                    report.append("password", "wrong password");
                }
            },
            Ok(None) => {
                report.append("account", "user not found");
            },
        }
        if !report.is_empty() {
            proof {
                lemma_grouped_single(report@[0]);
                assert(report@ =~= seq![report@[0]]);
            }
            Err(AuthError::Validation(report.into_error()))
        } else {
            // Never reached: every way that gives no token records an issue.
            Err(AuthError::Unexpected)
        }
    }

    /// Decides whom a request asks about. Without a token the request is
    /// refused, whatever number it names. With a number, the answer is to
    /// look that account up; without one, the user is the one named in the
    /// caller's own token, read under `secret`.
    pub fn get_user_info_by_id<E>(&self, token: Option<&str>, id: Option<i32>, secret: &str) -> (r:
        Result<IdentityAnswer, AuthError<E>>)
        ensures
            token is None ==> r == Err::<IdentityAnswer, AuthError<E>>(AuthError::NotAuthenticated),
            token is Some && id is Some ==> r == Ok::<IdentityAnswer, AuthError<E>>(
                IdentityAnswer::Lookup(id.unwrap()),
            ),
            token is Some && id is None ==> match decoded(token.unwrap()@, secret@) {
                Ok(t) => r matches Ok(IdentityAnswer::Known(user)) && user@ == t,
                Err(e) => r == Err::<IdentityAnswer, AuthError<E>>(AuthError::Token(e)),
            },
    {
        match token {
            Some(text) => match id {
                Some(id) => Ok(IdentityAnswer::Lookup(id)),
                None => match Token::decode(text, secret) {
                    Ok(t) => Ok(IdentityAnswer::Known(t.into_user())),
                    Err(e) => Err(AuthError::Token(e)),
                },
            },
            None => Err(AuthError::NotAuthenticated),
        }
    }

    /// Decides the answer from what the store gave when asked for the
    /// account with the number `id` of `IdentityAnswer::Lookup`: the user,
    /// where the store gave the account of that number, else `NotFound` with
    /// the number asked for.
    pub fn user_found<E>(&self, id: i32, found: Result<Option<Account>, E>) -> (r: Result<
        User,
        AuthError<E>,
    >)
        ensures
            match found {
                Err(e) => r == Err::<User, AuthError<E>>(AuthError::Store(e)),
                Ok(Some(account)) if account.id == id => r matches Ok(user) && user@
                    == account@.identity(),
                _ => r == Err::<User, AuthError<E>>(AuthError::NotFound(id)),
            },
    {
        match found {
            Err(e) => Err(AuthError::Store(e)),
            Ok(Some(account)) => if account.id == id {
                Ok(account.user())
            } else {
                Err(AuthError::NotFound(id))
            },
            Ok(None) => Err(AuthError::NotFound(id)),
        }
    }
}

impl UserMutation {
    /// Asks the format rules about the trimmed fields of `input`.
    pub fn verdicts(&self, input: &RegisterInput, rules: &FormatRules) -> (verdicts:
        PatternVerdicts)
        ensures
            verdicts == verdicts_of(input@, rules@),
    {
        PatternVerdicts {
            username: pattern_accepts(rules.username.as_str(), trim(input.username.as_str())),
            password: pattern_accepts(rules.password.as_str(), trim(input.password.as_str())),
            email: match &input.email {
                Some(e) => pattern_accepts(rules.email.as_str(), trim(e.as_str())),
                None => false,
            },
        }
    }

    /// Checks every field of `input`, whatever the fields before it came to,
    /// and reports all the issues.
    pub fn validate(&self, input: &RegisterInput, verdicts: PatternVerdicts) -> (report:
        ValidationReport)
        ensures
            report@ == registration_issues(input@, verdicts),
    {
        let mut report = ValidationReport::new();
        check_username(&mut report, input.username.as_str(), verdicts.username);
        check_password(&mut report, input.password.as_str(), verdicts.password);
        check_confirm_password(
            &mut report,
            input.password.as_str(),
            input.confirm_password.as_str(),
        );
        let email: Option<&str> = match &input.email {
            Some(e) => Some(e.as_str()),
            None => None,
        };
        check_email(&mut report, email, verdicts.email);
        assert(report@ =~= registration_issues(input@, verdicts));
        report
    }

    /// Decides a registration of which the verdicts of the format rules are
    /// known: the account to store where no field has an issue, else the
    /// error that lists every issue.
    pub fn register_with(&self, input: RegisterInput, verdicts: PatternVerdicts) -> (r: Result<
        NewAccount,
        ValidationError,
    >)
        ensures
            decided_under(r, input@, verdicts),
            r matches Ok(account) ==> account.username@.len() > 0,
    {
        let report = self.validate(&input, verdicts);
        proof {
            if report@.len() == 0 {
                lemma_account_without_issues(input@, verdicts);
            }
        }
        if report.is_empty() {
            Ok(
                NewAccount {
                    username: trim(input.username.as_str()).to_owned(),
                    email: input.email,
                    password: trim(input.password.as_str()).to_owned(),
                },
            )
        } else {
            Err(report.into_error())
        }
    }

    /// Decides a registration under the format rules: `register_with`, on
    /// the verdicts that the rules give on the fields of `input`. The
    /// account to store is given exactly where no field has an issue under
    /// those verdicts, else the error that lists every issue.
    pub fn register(&self, input: RegisterInput, rules: &FormatRules) -> (r: Result<
        NewAccount,
        ValidationError,
    >)
        ensures
            decided_under(r, input@, verdicts_of(input@, rules@)),
            r matches Ok(account) ==> account.username@.len() > 0,
    {
        let verdicts = self.verdicts(&input, rules);
        self.register_with(input, verdicts)
    }

    /// Decides the answer to a registration from what the store said when
    /// asked to store `account`: a token for the new account where it was
    /// stored, else the store's own error.
    pub fn registered<E>(&self, account: &NewAccount, stored: Result<(), E>, secret: &str) -> (r:
        Result<String, AuthError<E>>)
        ensures
            match stored {
                Ok(_) => r matches Ok(text) && text@ == encoded(account@.identity(), secret@)
                    && decoded(text@, secret@) == Ok::<Identity, DecodeError>(
                    account@.identity(),
                ),
                Err(e) => r == Err::<String, AuthError<E>>(AuthError::Store(e)),
            },
    {
        match stored {
            Ok(_) => Ok(account.token().encode(secret)),
            Err(e) => Err(AuthError::Store(e)),
        }
    }
}

} // verus!
