use account_auth::account::{Account, NewAccount, User};
use account_auth::error::AuthError;
use account_auth::report::{FieldErrors, ValidationError, ValidationIssue};
use account_auth::rules::FormatRules;
use account_auth::token::{DecodeError, Token};
use account_auth::user::{
    IdentityAnswer, LoginInput, PatternVerdicts, RegisterInput, UserMutation, UserQuery,
};

const SECRET: &str = "s3cret";

fn rules() -> FormatRules {
    FormatRules {
        username: r"^[A-Za-z0-9_]{3,16}$".to_string(),
        password: r"^[A-Za-z0-9!@#$%&*]{8,16}$".to_string(),
        email: r"^[^@\s]+@[^@\s]+\.[^@\s]+$".to_string(),
    }
}

fn all_accepted() -> PatternVerdicts {
    PatternVerdicts { username: true, password: true, email: true }
}

fn register_input(
    username: &str,
    password: &str,
    confirm_password: &str,
    email: Option<&str>,
) -> RegisterInput {
    RegisterInput {
        username: username.to_string(),
        email: email.map(|e| e.to_string()),
        password: password.to_string(),
        confirm_password: confirm_password.to_string(),
    }
}

fn login_input(account: &str, password: &str) -> LoginInput {
    LoginInput { account: account.to_string(), password: password.to_string() }
}

fn alice() -> Account {
    Account {
        id: 7,
        username: "alice".to_string(),
        email: Some("alice@example.com".to_string()),
        password: "Passw0rd".to_string(),
    }
}

fn entry(field: &str, messages: &[&str]) -> FieldErrors {
    FieldErrors {
        field: field.to_string(),
        messages: messages.iter().map(|m| m.to_string()).collect(),
    }
}

fn entries(error: &ValidationError) -> Vec<(String, Vec<String>)> {
    error.entries().iter().map(|e| (e.field.clone(), e.messages.clone())).collect()
}

fn fields(error: &ValidationError) -> Vec<String> {
    error.entries().iter().map(|e| e.field.clone()).collect()
}

#[test]
fn register_reports_every_failing_field_at_once() {
    let r = UserMutation.register(register_input("", "a", "b", Some("bad")), &rules());
    let error = r.unwrap_err();
    assert_eq!(
        error.entries(),
        &vec![
            entry("username", &["empty username is not allowed"]),
            entry(
                "password",
                &["your password is too weak or the length is not in the range [8,16]"]
            ),
            entry("confirm_password", &["confirm password not match the password"]),
            entry("email", &["not a valid email address"]),
        ]
    );
}

#[test]
fn validate_lists_four_issues_for_four_failing_fields() {
    let input = register_input("", "a", "b", Some("bad"));
    let verdicts = UserMutation.verdicts(&input, &rules());
    assert_eq!(verdicts, PatternVerdicts { username: false, password: false, email: false });
    let report = UserMutation.validate(&input, verdicts);
    assert_eq!(report.len(), 4);
    let found: Vec<&str> = report.issues().iter().map(|i| i.field.as_str()).collect();
    assert_eq!(found, vec!["username", "password", "confirm_password", "email"]);
}

#[test]
fn validate_reports_each_subset_of_failing_fields() {
    let usernames = [("alice", true), ("al ice", false)];
    let passwords = [("Passw0rd", true), ("short", false)];
    let confirms = [(true, true), (false, false)];
    let emails = [(Some("a@b.c"), true), (Some("nope"), false), (None, true)];
    for (username, username_ok) in usernames {
        for (password, password_ok) in passwords {
            for (same, confirm_ok) in confirms {
                for (email, email_ok) in emails {
                    let confirm = if same { password.to_string() } else { format!("{}x", password) };
                    let input = register_input(username, password, &confirm, email);
                    let mut expected: Vec<&str> = Vec::new();
                    if !username_ok {
                        expected.push("username");
                    }
                    if !password_ok {
                        expected.push("password");
                    }
                    if !confirm_ok {
                        expected.push("confirm_password");
                    }
                    if !email_ok {
                        expected.push("email");
                    }
                    match UserMutation.register(input, &rules()) {
                        Ok(account) => {
                            assert!(expected.is_empty());
                            assert_eq!(account.username, username);
                        },
                        Err(error) => assert_eq!(fields(&error), expected),
                    }
                }
            }
        }
    }
}

#[test]
fn register_gives_the_account_with_trimmed_fields() {
    let r = UserMutation.register(
        register_input("  alice ", " Passw0rd\n", "Passw0rd  ", Some(" alice@example.com ")),
        &rules(),
    );
    assert_eq!(
        r,
        Ok(NewAccount {
            username: "alice".to_string(),
            email: Some(" alice@example.com ".to_string()),
            password: "Passw0rd".to_string(),
        })
    );
}

#[test]
fn register_without_an_email() {
    let r = UserMutation.register(register_input("bob_1", "Passw0rd!", "Passw0rd!", None), &rules());
    assert_eq!(
        r,
        Ok(NewAccount {
            username: "bob_1".to_string(),
            email: None,
            password: "Passw0rd!".to_string(),
        })
    );
}

#[test]
fn register_refuses_a_password_that_the_rule_does_not_accept() {
    let r = UserMutation.register(
        register_input("alice", "Pass w0rd", "Pass w0rd", None),
        &rules(),
    );
    assert_eq!(
        entries(&r.unwrap_err()),
        vec![(
            "password".to_string(),
            vec!["your password is too weak or the length is not in the range [8,16]".to_string()]
        )]
    );
}

#[test]
fn register_refuses_a_password_outside_the_length_range_whatever_the_rule() {
    let lax = FormatRules {
        username: "".to_string(),
        password: "".to_string(),
        email: "".to_string(),
    };
    for password in ["1234567", "0123456789abcdefg"] {
        let r = UserMutation.register(register_input("alice", password, password, None), &lax);
        assert_eq!(fields(&r.unwrap_err()), vec!["password"]);
    }
    for password in ["12345678", "0123456789abcdef"] {
        let r = UserMutation.register(register_input("alice", password, password, None), &lax);
        assert_eq!(r.unwrap().password, password);
    }
}

#[test]
fn register_under_rules_that_are_no_regular_expressions_accepts_nothing() {
    let broken = FormatRules {
        username: "(".to_string(),
        password: "[".to_string(),
        email: "(?=x)".to_string(),
    };
    let r = UserMutation.register(
        register_input("alice", "Passw0rd", "Passw0rd", Some("a@b.c")),
        &broken,
    );
    assert_eq!(fields(&r.unwrap_err()), vec!["username", "password", "email"]);
}

#[test]
fn register_with_follows_the_verdicts() {
    let input = register_input("alice", "Passw0rd", "Passw0rd", Some("a@b.c"));
    assert!(UserMutation.register_with(input, all_accepted()).is_ok());
    let input = register_input("alice", "Passw0rd", "Passw0rd", Some("a@b.c"));
    let r = UserMutation.register_with(
        input,
        PatternVerdicts { username: false, password: true, email: false },
    );
    assert_eq!(
        r.unwrap_err().entries(),
        &vec![
            entry("username", &["invalid username"]),
            entry("email", &["not a valid email address"]),
        ]
    );
}

#[test]
fn validating_trimmed_valid_values_again_finds_nothing() {
    let first = register_input("  alice ", " Passw0rd ", "Passw0rd ", Some("alice@example.com"));
    let account = UserMutation.register(first, &rules()).unwrap();
    let again = RegisterInput {
        username: account.username.clone(),
        email: account.email.clone(),
        password: account.password.clone(),
        confirm_password: account.password.clone(),
    };
    let verdicts = UserMutation.verdicts(&again, &rules());
    assert_eq!(verdicts, all_accepted());
    assert!(UserMutation.validate(&again, verdicts).is_empty());
    let once_more = UserMutation.register(again, &rules()).unwrap();
    assert_eq!(once_more, account);
}

#[test]
fn validating_the_same_input_twice_finds_the_same() {
    let input = register_input(" ", "a", "", Some("x"));
    let verdicts = UserMutation.verdicts(&input, &rules());
    let one = UserMutation.validate(&input, verdicts);
    let two = UserMutation.validate(&input, verdicts);
    assert_eq!(one, two);
    let expected: Vec<ValidationIssue> = vec![
        ValidationIssue {
            field: "username".to_string(),
            message: "empty username is not allowed".to_string(),
        },
        ValidationIssue {
            field: "password".to_string(),
            message: "your password is too weak or the length is not in the range [8,16]"
                .to_string(),
        },
        ValidationIssue {
            field: "confirm_password".to_string(),
            message: "empty password is not allowed".to_string(),
        },
        ValidationIssue {
            field: "email".to_string(),
            message: "not a valid email address".to_string(),
        },
    ];
    assert_eq!(one.issues(), &expected);
}

#[test]
fn register_and_register_of_the_trimmed_input_come_to_the_same() {
    let cases = [
        ("  alice ", " Passw0rd ", "Passw0rd ", Some("alice@example.com")),
        (" ", " a", "b ", Some(" bad ")),
        ("bob_1", "Passw0rd!", " Passw0rd!", None),
        (" al ice ", "Passw0rd", "", Some("")),
    ];
    for (username, password, confirm, email) in cases {
        let one = UserMutation.register(register_input(username, password, confirm, email), &rules());
        let two = UserMutation.register(
            register_input(username.trim(), password.trim(), confirm.trim(), email),
            &rules(),
        );
        assert_eq!(one, two);
        let again = UserMutation.register(register_input(username, password, confirm, email), &rules());
        assert_eq!(one, again);
    }
}

#[test]
fn registered_gives_a_token_for_the_new_account() {
    let account = NewAccount {
        username: "alice".to_string(),
        email: Some("alice@example.com".to_string()),
        password: "Passw0rd".to_string(),
    };
    let r: Result<String, AuthError<String>> = UserMutation.registered(&account, Ok(()), SECRET);
    let text = r.unwrap();
    assert_eq!(
        text,
        "010500000000000000616c696365616c696365406578616d706c652e636f6d.\
         a99d70792db19808fbd6a7355430bb53369f7d8630ee4e00e5263ca7cbd78807"
    );
    assert_eq!(
        Token::decode(&text, SECRET),
        Ok(Token {
            username: "alice".to_string(),
            email: Some("alice@example.com".to_string())
        })
    );
}

#[test]
fn registered_hands_on_the_error_of_the_store() {
    let account = NewAccount {
        username: "alice".to_string(),
        email: None,
        password: "Passw0rd".to_string(),
    };
    let r = UserMutation.registered(&account, Err("duplicate key: username".to_string()), SECRET);
    assert_eq!(r, Err(AuthError::Store("duplicate key: username".to_string())));
}

#[test]
fn two_registrations_of_one_name_give_one_token() {
    let first = UserMutation
        .register(register_input("alice", "Passw0rd", "Passw0rd", None), &rules())
        .unwrap();
    let second = UserMutation
        .register(register_input(" alice", "0therPass", "0therPass", None), &rules())
        .unwrap();
    assert_eq!(first.username, second.username);
    let mut taken: Vec<String> = Vec::new();
    let mut answers: Vec<Result<String, AuthError<String>>> = Vec::new();
    for account in [&first, &second] {
        let stored = if taken.contains(&account.username) {
            Err(format!("unique constraint: {}", account.username))
        } else {
            taken.push(account.username.clone());
            Ok(())
        };
        answers.push(UserMutation.registered(account, stored, SECRET));
    }
    assert_eq!(answers.iter().filter(|a| a.is_ok()).count(), 1);
    assert!(answers[0].is_ok());
    assert_eq!(answers[1], Err(AuthError::Store("unique constraint: alice".to_string())));
}

#[test]
fn log_in_with_an_unknown_account() {
    let r: Result<String, AuthError<String>> =
        UserQuery.log_in(login_input("nobody", "Passw0rd"), Ok(None), SECRET);
    match r {
        Err(AuthError::Validation(error)) => {
            assert_eq!(error.entries(), &vec![entry("account", &["user not found"])]);
        },
        other => panic!("not a validation error: {:?}", other),
    }
}

#[test]
fn log_in_with_a_wrong_password() {
    for password in ["", "passw0rd", "Passw0rd ", " Passw0rd", "Passw0rd1", "Passw0r"] {
        let r: Result<String, AuthError<String>> =
            UserQuery.log_in(login_input("alice", password), Ok(Some(alice())), SECRET);
        match r {
            Err(AuthError::Validation(error)) => {
                assert_eq!(error.entries(), &vec![entry("password", &["wrong password"])]);
            },
            other => panic!("not a validation error: {:?}", other),
        }
    }
}

#[test]
fn log_in_with_the_right_password() {
    for key in ["alice", "alice@example.com"] {
        let r: Result<String, AuthError<String>> =
            UserQuery.log_in(login_input(key, "Passw0rd"), Ok(Some(alice())), SECRET);
        let text = r.unwrap();
        assert_eq!(
            text,
            "010500000000000000616c696365616c696365406578616d706c652e636f6d.\
             a99d70792db19808fbd6a7355430bb53369f7d8630ee4e00e5263ca7cbd78807"
        );
        assert_eq!(
            Token::decode(&text, SECRET),
            Ok(Token {
                username: "alice".to_string(),
                email: Some("alice@example.com".to_string())
            })
        );
    }
}

#[test]
fn log_in_when_the_store_fails() {
    let r = UserQuery.log_in(
        login_input("alice", "Passw0rd"),
        Err("connection refused".to_string()),
        SECRET,
    );
    assert_eq!(r, Err(AuthError::Store("connection refused".to_string())));
}

#[test]
fn get_user_info_without_a_token_is_not_authenticated() {
    for id in [None, Some(0), Some(7), Some(-1), Some(i32::MAX), Some(i32::MIN)] {
        let r: Result<IdentityAnswer, AuthError<String>> =
            UserQuery.get_user_info_by_id(None, id, SECRET);
        assert_eq!(r, Err(AuthError::NotAuthenticated));
    }
}

#[test]
fn get_user_info_with_a_number_asks_for_a_lookup() {
    let text = alice().token().encode(SECRET);
    for token in [text.as_str(), "not even a token", ""] {
        let r: Result<IdentityAnswer, AuthError<String>> =
            UserQuery.get_user_info_by_id(Some(token), Some(7), SECRET);
        assert_eq!(r, Ok(IdentityAnswer::Lookup(7)));
    }
}

#[test]
fn get_user_info_without_a_number_reads_the_token() {
    let text = alice().token().encode(SECRET);
    let r: Result<IdentityAnswer, AuthError<String>> =
        UserQuery.get_user_info_by_id(Some(&text), None, SECRET);
    assert_eq!(
        r,
        Ok(IdentityAnswer::Known(User {
            username: "alice".to_string(),
            email: Some("alice@example.com".to_string())
        }))
    );
}

#[test]
fn get_user_info_with_a_token_that_is_refused() {
    let text = alice().token().encode("another secret");
    let r: Result<IdentityAnswer, AuthError<String>> =
        UserQuery.get_user_info_by_id(Some(&text), None, SECRET);
    assert_eq!(r, Err(AuthError::Token(DecodeError::InvalidToken)));
    let r: Result<IdentityAnswer, AuthError<String>> =
        UserQuery.get_user_info_by_id(Some("fake token"), None, SECRET);
    assert_eq!(r, Err(AuthError::Token(DecodeError::InvalidToken)));
    let r: Result<IdentityAnswer, AuthError<String>> = UserQuery.get_user_info_by_id(
        Some("0001.6a8f62171917a5f167189ec543a3ea7d1e19aa8c98f65d9056ca702dde5d68f1"),
        None,
        "k",
    );
    assert_eq!(r, Err(AuthError::Token(DecodeError::MalformedToken)));
}

#[test]
fn log_in_with_an_account_of_another_name_is_an_unknown_account() {
    for name in ["ALICE", "alice ", "Alice@example.com", "alic", "", "bob"] {
        let r: Result<String, AuthError<String>> =
            UserQuery.log_in(login_input(name, "Passw0rd"), Ok(Some(alice())), SECRET);
        match r {
            Err(AuthError::Validation(error)) => {
                assert_eq!(error.entries(), &vec![entry("account", &["user not found"])]);
            },
            other => panic!("not a validation error: {:?}", other),
        }
    }
}

#[test]
fn log_in_never_answers_with_the_unexpected_error() {
    let founds: [Option<Account>; 2] = [None, Some(alice())];
    for found in founds {
        for name in ["alice", "alice@example.com", "ALICE", ""] {
            for password in ["Passw0rd", "wrong", ""] {
                let r: Result<String, AuthError<String>> =
                    UserQuery.log_in(login_input(name, password), Ok(found.as_ref().map(|_| alice())), SECRET);
                assert_ne!(r, Err(AuthError::Unexpected));
                let token_given = r.is_ok();
                let owed = found.is_some() && name.starts_with("alice") && password == "Passw0rd";
                assert_eq!(token_given, owed);
            }
        }
    }
}

#[test]
fn account_answers_to_its_user_name_and_its_email() {
    let account = alice();
    assert!(account.answers_to("alice"));
    assert!(account.answers_to("alice@example.com"));
    assert!(!account.answers_to("Alice"));
    assert!(!account.answers_to("alice@example.co"));
    assert!(!account.answers_to(""));
    assert!(!account.answers_to("Passw0rd"));
    let without_email =
        Account { id: 1, username: "bob".to_string(), email: None, password: "x".to_string() };
    assert!(without_email.answers_to("bob"));
    assert!(!without_email.answers_to(""));
}

#[test]
fn user_found_shows_the_account() {
    let r: Result<User, AuthError<String>> = UserQuery.user_found(7, Ok(Some(alice())));
    assert_eq!(
        r,
        Ok(User { username: "alice".to_string(), email: Some("alice@example.com".to_string()) })
    );
}

#[test]
fn user_found_without_an_account_is_not_found() {
    let r: Result<User, AuthError<String>> = UserQuery.user_found(7, Ok(None));
    assert_eq!(r, Err(AuthError::NotFound(7)));
    let r: Result<User, AuthError<String>> = UserQuery.user_found(8, Ok(Some(alice())));
    assert_eq!(r, Err(AuthError::NotFound(8)));
    for id in [0, -1, i32::MAX, i32::MIN] {
        let r: Result<User, AuthError<String>> = UserQuery.user_found(id, Ok(None));
        assert_eq!(r, Err(AuthError::NotFound(id)));
    }
}

#[test]
fn user_found_when_the_store_fails() {
    let r = UserQuery.user_found(7, Err("timeout".to_string()));
    assert_eq!(r, Err(AuthError::Store("timeout".to_string())));
}

#[test]
fn account_gives_its_identity() {
    let token = alice().token();
    assert_eq!(token.username, "alice");
    assert_eq!(token.email, Some("alice@example.com".to_string()));
    let user = alice().user();
    assert_eq!(user.username, "alice");
    assert_eq!(user.email, Some("alice@example.com".to_string()));
}
