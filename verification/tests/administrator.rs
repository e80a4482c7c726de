use rocket_auth_login::administrator::{
    sql_quote,
    AdminQuery, AdminRow, AdministratorCookie, AdministratorForm, AuthStep, QueryRows,
};
use rocket_auth_login::authorization::CookieId;

fn form() -> AdministratorForm {
    AdministratorForm::new_form("andrew", "pw", None)
}

fn count(n: usize) -> Option<QueryRows> {
    Some(QueryRows { count: n, first: None })
}

fn expect_fail(step: AuthStep, msg: &str) {
    match step {
        AuthStep::Done(Err(f)) => {
            assert_eq!(f.user, "andrew");
            assert_eq!(f.msg, msg);
        }
        other => panic!("unexpected step {:?}", other),
    }
}

#[test]
fn administrator_cookie_id_is_acid() {
    assert_eq!(AdministratorCookie::cookie_id(), "acid");
    assert_eq!(AdministratorForm::cookie_id(), "acid");
}

#[test]
fn new_form_keeps_credentials() {
    let f = form();
    assert_eq!(f.username, "andrew");
    assert_eq!(f.password, "pw");
}

#[test]
fn query_texts() {
    let f = form();
    assert_eq!(
        f.query_text(AdminQuery::Login),
        "SELECT userid, username, display FROM users WHERE username = 'andrew' AND password = 'pw' AND is_admin = '1'"
    );
    assert_eq!(f.query_text(AdminQuery::IsUser), "SELECT userid FROM users WHERE username = 'andrew'");
    assert_eq!(
        f.query_text(AdminQuery::IsAdmin),
        "SELECT userid FROM users WHERE username = 'andrew' AND is_admin = '1'"
    );
    assert_eq!(
        f.query_text(AdminQuery::Password),
        "SELECT userid FROM users WHERE username = 'andrew' AND password = 'pw'"
    );
}

#[test]
fn login_with_one_row_succeeds() {
    let row = AdminRow { userid: 7, username: "andrew".to_string(), display: Some("Andrew".to_string()) };
    match form().authenticate_step(AdminQuery::Login, Some(QueryRows { count: 1, first: Some(row) })) {
        AuthStep::Done(Ok(c)) => {
            assert_eq!(c.userid, 7);
            assert_eq!(c.username, "andrew");
            assert_eq!(c.display.as_deref(), Some("Andrew"));
        }
        other => panic!("unexpected step {:?}", other),
    }
}

#[test]
fn login_without_exactly_one_row_checks_user() {
    let f = form();
    assert!(matches!(f.authenticate_step(AdminQuery::Login, count(0)), AuthStep::Run(AdminQuery::IsUser)));
    assert!(matches!(f.authenticate_step(AdminQuery::Login, count(2)), AuthStep::Run(AdminQuery::IsUser)));
    assert!(matches!(f.authenticate_step(AdminQuery::Login, None), AuthStep::Run(AdminQuery::IsUser)));
}

#[test]
fn unknown_user_is_reported() {
    expect_fail(form().authenticate_step(AdminQuery::IsUser, count(0)), "Username was not found.");
}

#[test]
fn non_administrator_is_reported() {
    let f = form();
    assert!(matches!(f.authenticate_step(AdminQuery::IsUser, count(1)), AuthStep::Run(AdminQuery::IsAdmin)));
    expect_fail(f.authenticate_step(AdminQuery::IsAdmin, count(0)), "User does not have administrator priveleges.");
}

#[test]
fn wrong_password_is_reported() {
    let f = form();
    assert!(matches!(f.authenticate_step(AdminQuery::IsAdmin, count(1)), AuthStep::Run(AdminQuery::Password)));
    expect_fail(f.authenticate_step(AdminQuery::Password, count(0)), "Invalid username / password combination.");
}

#[test]
fn otherwise_the_error_is_unknown() {
    expect_fail(form().authenticate_step(AdminQuery::Password, count(1)), "Unkown error..");
    expect_fail(form().authenticate_step(AdminQuery::Password, None), "Unkown error..");
}

#[test]
fn failed_queries_move_on() {
    let f = form();
    assert!(matches!(f.authenticate_step(AdminQuery::IsUser, None), AuthStep::Run(AdminQuery::IsAdmin)));
    assert!(matches!(f.authenticate_step(AdminQuery::IsAdmin, None), AuthStep::Run(AdminQuery::Password)));
}

#[test]
fn a_full_run_takes_at_most_four_queries() {
    let f = form();
    let mut q = AdminQuery::Login;
    let mut queries = 0;
    loop {
        queries += 1;
        match f.authenticate_step(q, count(3)) {
            AuthStep::Run(next) => q = next,
            AuthStep::Done(result) => {
                assert!(result.is_err());
                break;
            }
        }
    }
    assert_eq!(queries, 4);
}

#[test]
fn sql_quote_doubles_single_quotes() {
    assert_eq!(sql_quote("o'brien"), "o''brien");
    assert_eq!(sql_quote("''"), "''''");
    assert_eq!(sql_quote("plain"), "plain");
    assert_eq!(sql_quote(""), "");
    assert_eq!(sql_quote("é'ü"), "é''ü");
}

#[test]
fn query_texts_quote_the_fields() {
    let f = AdministratorForm::new_form("x' OR '1'='1", "p'w", None);
    assert_eq!(
        f.query_text(AdminQuery::Login),
        "SELECT userid, username, display FROM users WHERE username = 'x'' OR ''1''=''1' AND password = 'p''w' AND is_admin = '1'"
    );
    assert_eq!(
        f.query_text(AdminQuery::Password),
        "SELECT userid FROM users WHERE username = 'x'' OR ''1''=''1' AND password = 'p''w'"
    );
}
