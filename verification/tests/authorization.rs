use rocket_auth_login::authorization::{
    collect_login_fields, decode_form_value, fail_url, guard_outcome, AuthCont, AuthFail,
    CookieId, FormField, GuardOutcome, LoginAction, LoginCont, LoginFields, UserQuery,
};

fn field(key: &str, value: &str) -> FormField {
    FormField { key: key.to_string(), value: value.to_string() }
}

fn extras_sorted(fields: &LoginFields) -> Option<Vec<(String, String)>> {
    fields.extras.as_ref().map(|v| {
        let mut pairs: Vec<(String, String)> =
            v.iter().map(|f| (f.key.clone(), f.value.clone())).collect();
        pairs.sort();
        pairs
    })
}

struct PlainCookie;
impl CookieId for PlainCookie {}

#[test]
fn default_cookie_id_is_sid() {
    assert_eq!(PlainCookie::cookie_id(), "sid");
}

#[test]
fn fail_url_names_the_user() {
    assert_eq!(fail_url("andrew"), "?user=andrew");
    assert_eq!(fail_url(""), "?user=");
}

#[test]
fn auth_fail_new_keeps_fields() {
    let f = AuthFail::new("andrew".to_string(), "Username was not found.".to_string());
    assert_eq!(f.user, "andrew");
    assert_eq!(f.msg, "Username was not found.");
}

#[test]
fn containers_hand_out_copies() {
    let login = LoginCont { form: "form".to_string() };
    assert_eq!(login.form(), "form");
    let auth = AuthCont { cookie: 42u32 };
    assert_eq!(auth.cookie_data(), 42);
}

#[test]
fn decode_form_value_decodes_escapes_and_plus() {
    assert_eq!(decode_form_value("Hello%2C+world%21"), "Hello, world!");
    assert_eq!(decode_form_value("a+b"), "a b");
    assert_eq!(decode_form_value("plain"), "plain");
    assert_eq!(decode_form_value(""), "");
}

#[test]
fn decode_form_value_empties_invalid_utf8() {
    assert_eq!(decode_form_value("a%ff"), "");
}

#[test]
fn decode_form_value_keeps_malformed_escapes() {
    assert_eq!(decode_form_value("100%zz"), "100%zz");
}

#[test]
fn login_fields_sorted_into_credentials_and_extras() {
    let fields = vec![
        field("username", "andrew"),
        field("password", "se%20cret"),
        field("remember", "on"),
    ];
    let r = collect_login_fields(&fields);
    assert_eq!(r.user.as_deref(), Some("andrew"));
    assert_eq!(r.pass.as_deref(), Some("se cret"));
    assert_eq!(extras_sorted(&r), Some(vec![("remember".to_string(), "on".to_string())]));
}

#[test]
fn login_fields_last_value_wins() {
    let fields = vec![
        field("username", "first"),
        field("theme", "dark"),
        field("username", "second"),
        field("theme", "light"),
        field("lang", "en"),
    ];
    let r = collect_login_fields(&fields);
    assert_eq!(r.user.as_deref(), Some("second"));
    assert_eq!(r.pass, None);
    assert_eq!(
        extras_sorted(&r),
        Some(vec![
            ("lang".to_string(), "en".to_string()),
            ("theme".to_string(), "light".to_string()),
        ])
    );
}

#[test]
fn login_fields_without_extras_have_none() {
    let fields = vec![field("username", "andrew"), field("password", "pw")];
    let r = collect_login_fields(&fields);
    assert!(r.extras.is_none());
}

#[test]
fn empty_login_form_is_accepted() {
    let r = collect_login_fields(&Vec::new());
    assert_eq!(r.user, None);
    assert_eq!(r.pass, None);
    assert!(r.extras.is_none());
}

#[test]
fn login_fields_from_raw_body() {
    let r = LoginFields::from_body("username=andrew&password=p%40ss&remember=yes+please");
    assert_eq!(r.user.as_deref(), Some("andrew"));
    assert_eq!(r.pass.as_deref(), Some("p@ss"));
    assert_eq!(
        extras_sorted(&r),
        Some(vec![("remember".to_string(), "yes please".to_string())])
    );
    let empty = LoginFields::from_body("");
    assert_eq!(empty.user, None);
    assert!(empty.extras.is_none());
}

#[test]
fn requested_user_is_last_user_field() {
    let fields = vec![field("user", "a"), field("page", "2"), field("user", "b%20c")];
    assert_eq!(UserQuery::requested_user(&fields).as_deref(), Some("b c"));
    assert_eq!(UserQuery::requested_user(&vec![field("page", "2")]), None);
    assert_eq!(UserQuery::requested_user_in("user=andrew&x=1").as_deref(), Some("andrew"));
}

#[test]
fn successful_login_sets_cookie_and_redirects() {
    let a = LoginAction::after_login(
        Ok("{\"userid\":1}".to_string()),
        "acid",
        "/admin".to_string(),
        "/login".to_string(),
    );
    match a.with_user_query("?user=x") {
        LoginAction::Authorized { cookie_name, cookie_value, location } => {
            assert_eq!(cookie_name, "acid");
            assert_eq!(cookie_value, "{\"userid\":1}");
            assert_eq!(location, "/admin");
        }
        other => panic!("unexpected action {:?}", other),
    }
}

#[test]
fn refused_login_with_user_returns_to_form() {
    let fail = AuthFail::new("andrew".to_string(), "Username was not found.".to_string());
    let a = LoginAction::after_login(Err(fail), "acid", "/admin".to_string(), "/login".to_string());
    let user = match &a {
        LoginAction::NeedsUserQuery { location, user, flash_message } => {
            assert_eq!(location, "/login");
            assert_eq!(flash_message, "Username was not found.");
            user.clone()
        }
        other => panic!("unexpected action {:?}", other),
    };
    match a.with_user_query(&fail_url(&user)) {
        LoginAction::Refused { location, flash_message } => {
            assert_eq!(location, "/login?user=andrew");
            assert_eq!(flash_message, "Username was not found.");
        }
        other => panic!("unexpected action {:?}", other),
    }
}

#[test]
fn refused_login_without_user_keeps_error_page() {
    let fail = AuthFail::new(String::new(), "Unkown error..".to_string());
    let a = LoginAction::after_login(Err(fail), "acid", "/admin".to_string(), "/login".to_string());
    match a.with_user_query("?user=ignored") {
        LoginAction::Refused { location, flash_message } => {
            assert_eq!(location, "/login");
            assert_eq!(flash_message, "Unkown error..");
        }
        other => panic!("unexpected action {:?}", other),
    }
}

#[test]
fn guard_succeeds_only_with_restored_cookie() {
    assert!(matches!(guard_outcome(Some(7u8)), GuardOutcome::Success(7)));
    assert!(matches!(guard_outcome::<u8>(None), GuardOutcome::Forward));
    match AuthCont::from_restored(Some("data".to_string())) {
        GuardOutcome::Success(c) => assert_eq!(c.cookie, "data"),
        GuardOutcome::Forward => panic!("expected success"),
    }
    assert!(matches!(AuthCont::<String>::from_restored(None), GuardOutcome::Forward));
}

#[test]
fn credentials_never_become_extras() {
    let fields = vec![
        field("password", "a"),
        field("username", "b"),
        field("password", "c"),
        field("other", "d"),
        field("username", "e"),
    ];
    let r = collect_login_fields(&fields);
    assert_eq!(r.user.as_deref(), Some("e"));
    assert_eq!(r.pass.as_deref(), Some("c"));
    assert_eq!(extras_sorted(&r), Some(vec![("other".to_string(), "d".to_string())]));
}

#[test]
fn form_body_pieces_are_cut_as_rocket_cuts_them() {
    let r = LoginFields::from_body("&&username=a=b&flag&&password=&x=1&");
    assert_eq!(r.user.as_deref(), Some("a=b"));
    assert_eq!(r.pass.as_deref(), Some(""));
    assert_eq!(
        extras_sorted(&r),
        Some(vec![
            ("flag".to_string(), "".to_string()),
            ("x".to_string(), "1".to_string()),
        ])
    );
}

#[test]
fn empty_body_requests_no_user() {
    assert_eq!(UserQuery::requested_user_in(""), None);
    let r = LoginFields::from_body("");
    assert_eq!(r.pass, None);
}
