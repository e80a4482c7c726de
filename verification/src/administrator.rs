//! An administrator login backed by a `users` table: the cookie and form
//! types, and the sequence of queries that authenticates a form.
//!
//! The database is queried by the caller: `AdministratorForm::query_text`
//! gives the SQL of each query, with the user name and password quoted, and
//! `AdministratorForm::authenticate_step` decides, from the rows a query
//! returned, which query comes next or how the attempt ends. Starting from `AdminQuery::Login` this takes at most
//! four queries.
use vstd::prelude::*;
use std::collections::HashMap;
use crate::authorization::{AuthFail, CookieId};

verus! {

/// The data of a logged-in administrator, kept in the `acid` cookie.
#[derive(Debug, Clone)]
pub struct AdministratorCookie {
    pub userid: u32,
    pub username: String,
    pub display: Option<String>,
}

/// The login form of an administrator.
#[derive(Debug, Clone)]
pub struct AdministratorForm {
    pub username: String,
    pub password: String,
}

impl CookieId for AdministratorCookie {
    fn cookie_id<'a>() -> (id: &'a str)
        ensures
            id@ == "acid"@,
    {
        "acid"
    }
}

impl CookieId for AdministratorForm {
    fn cookie_id<'a>() -> (id: &'a str)
        ensures
            id@ == "acid"@,
    {
        "acid"
    }
}

/// The queries made to authenticate an administrator, in the order they are
/// made.
#[derive(Debug, Clone, Copy, PartialEq, Eq, Structural)]
pub enum AdminQuery {
    /// The administrator with this name and password.
    Login,
    /// Whether a user of this name exists.
    IsUser,
    /// Whether a user of this name is an administrator.
    IsAdmin,
    /// Whether a user of this name has this password.
    Password,
}

pub open spec fn stage_index(q: AdminQuery) -> int {
    match q {
        AdminQuery::Login => 0,
        AdminQuery::IsUser => 1,
        AdminQuery::IsAdmin => 2,
        AdminQuery::Password => 3,
    }
}

/// The body of an SQL string literal holding `s`: every single quote is
/// doubled, so that `s` cannot end the literal early.
pub open spec fn sql_quoted(s: Seq<char>) -> Seq<char>
    decreases s.len(),
{
    if s.len() == 0 {
        Seq::empty()
    } else if s[0] == '\'' {
        seq!['\'', '\''] + sql_quoted(s.skip(1))
    } else {
        seq![s[0]] + sql_quoted(s.skip(1))
    }
}

/// What an SQL string literal's body stands for: each doubled single quote
/// is one quote.
pub open spec fn sql_unquoted(t: Seq<char>) -> Seq<char>
    decreases t.len(),
{
    if t.len() == 0 {
        Seq::empty()
    } else if t.len() >= 2 && t[0] == '\'' && t[1] == '\'' {
        seq!['\''] + sql_unquoted(t.skip(2))
    } else {
        seq![t[0]] + sql_unquoted(t.skip(1))
    }
}

/// Inside the quotes of a query, a user name or password stands for exactly
/// itself, whatever quotes it holds.
pub proof fn quoted_field_reads_back(s: Seq<char>)
    ensures
        sql_unquoted(sql_quoted(s)) == s,
    decreases s.len(),
{
    if s.len() > 0 {
        let q = sql_quoted(s);
        quoted_field_reads_back(s.skip(1));
        if s[0] == '\'' {
            assert(q.skip(2) =~= sql_quoted(s.skip(1)));
        } else {
            assert(q.skip(1) =~= sql_quoted(s.skip(1)));
        }
        assert(sql_unquoted(q) =~= s);
    }
}

/// Quotes `s` for an SQL string literal.
pub fn sql_quote(s: &str) -> (r: String)
    ensures
        r@ == sql_quoted(s@),
{
    let n = s.unicode_len();
    let mut out = String::new();
    let mut i: usize = 0;
    proof {
        assert(s@.skip(0) =~= s@);
        reveal_strlit("''");
    }
    while i < n
        invariant
            i <= n,
            n == s@.len(),
            "''"@ == seq!['\'', '\''],
            sql_quoted(s@) == out@ + sql_quoted(s@.skip(i as int)),
        decreases n - i,
    {
        let c = s.get_char(i);
        proof {
            assert(s@.skip(i as int).skip(1) =~= s@.skip(i + 1));
            assert(s@.skip(i as int)[0] == c);
        }
        if c == '\'' {
            out.append("''");
        } else {
            let one = s.substring_char(i, i + 1);
            assert(one@ =~= seq![c]);
            out.append(one);
        }
        i += 1;
    }
    proof {
        assert(s@.skip(n as int) =~= Seq::<char>::empty());
        assert(out@ + Seq::<char>::empty() =~= out@);
    }
    out
}

/// The SQL text of each query for a user name and password, each quoted.
pub open spec fn spec_query_text(user: Seq<char>, pass: Seq<char>, q: AdminQuery) -> Seq<char> {
    let user = sql_quoted(user);
    let pass = sql_quoted(pass);
    match q {
        AdminQuery::Login => "SELECT userid, username, display FROM users WHERE username = '"@ + user
            + "' AND password = '"@ + pass + "' AND is_admin = '1'"@,
        AdminQuery::IsUser => "SELECT userid FROM users WHERE username = '"@ + user + "'"@,
        AdminQuery::IsAdmin => "SELECT userid FROM users WHERE username = '"@ + user
            + "' AND is_admin = '1'"@,
        AdminQuery::Password => "SELECT userid FROM users WHERE username = '"@ + user
            + "' AND password = '"@ + pass + "'"@,
    }
}

/// The message of a failed attempt when check `q` found no row. (The login
/// query finding no row is no failure by itself: the checks follow.)
pub open spec fn no_row_message(q: AdminQuery) -> Seq<char> {
    match q {
        AdminQuery::Login => unknown_failure_message(),
        AdminQuery::IsUser => "Username was not found."@,
        AdminQuery::IsAdmin => "User does not have administrator priveleges."@,
        AdminQuery::Password => "Invalid username / password combination."@,
    }
}

/// The message of a failed attempt that no query explains.
pub open spec fn unknown_failure_message() -> Seq<char> {
    "Unkown error.."@
}

/// A row of the login query: `userid`, `username`, `display`.
#[derive(Debug, Clone)]
pub struct AdminRow {
    pub userid: u32,
    pub username: String,
    pub display: Option<String>,
}

/// What a query returned: the number of rows and, for the login query, its
/// first row.
#[derive(Debug, Clone)]
pub struct QueryRows {
    pub count: usize,
    pub first: Option<AdminRow>,
}

/// The next step of an authentication: run another query, or finish.
#[derive(Debug)]
pub enum AuthStep {
    Run(AdminQuery),
    Done(Result<AdministratorCookie, AuthFail>),
}

/// The login query found exactly one administrator.
pub open spec fn login_found(reply: Option<QueryRows>) -> bool {
    reply matches Some(rows) && rows.count == 1 && rows.first is Some
}

/// The query found no row (as opposed to failing, or finding some).
pub open spec fn found_nothing(reply: Option<QueryRows>) -> bool {
    reply matches Some(rows) && rows.count == 0
}

impl AdministratorForm {
    /// A login form with the given user name and password; other fields are
    /// ignored.
    pub fn new_form(user: &str, pass: &str, _extras: Option<HashMap<String, String>>) -> (r: Self)
        ensures
            r.username@ == user@,
            r.password@ == pass@,
    {
        AdministratorForm { username: String::from_str(user), password: String::from_str(pass) }
    }

    /// The SQL text of query `q` for this form, with the user name and
    /// password quoted.
    pub fn query_text(&self, q: AdminQuery) -> (r: String)
        ensures
            r@ == spec_query_text(self.username@, self.password@, q),
    {
        let user = sql_quote(self.username.as_str());
        let pass = sql_quote(self.password.as_str());
        match q {
            AdminQuery::Login => {
                let mut s = String::from_str(
                    "SELECT userid, username, display FROM users WHERE username = '",
                );
                s.append(user.as_str());
                s.append("' AND password = '");
                s.append(pass.as_str());
                s.append("' AND is_admin = '1'");
                s
            },
            AdminQuery::IsUser => {
                let mut s = String::from_str("SELECT userid FROM users WHERE username = '");
                s.append(user.as_str());
                s.append("'");
                s
            },
            AdminQuery::IsAdmin => {
                let mut s = String::from_str("SELECT userid FROM users WHERE username = '");
                s.append(user.as_str());
                s.append("' AND is_admin = '1'");
                s
            },
            AdminQuery::Password => {
                let mut s = String::from_str("SELECT userid FROM users WHERE username = '");
                s.append(user.as_str());
                s.append("' AND password = '");
                s.append(pass.as_str());
                s.append("'");
                s
            },
        }
    }

    fn refuse(&self, msg: &str) -> (r: AuthStep)
        ensures
            r matches AuthStep::Done(Err(f)) && f.user == self.username && f.msg@ == msg@,
    {
        AuthStep::Done(Err(AuthFail::new(self.username.clone(), String::from_str(msg))))
    }

    /// Decides what follows query `q`, given what it returned (`None` when
    /// the query itself failed).
    ///
    /// The login query logs the administrator in when it finds exactly one
    /// row. Otherwise the user name, the administrator flag and the password
    /// are checked in turn, and the first of them that finds no row names
    /// the reason of the failure.
    pub fn authenticate_step(&self, q: AdminQuery, reply: Option<QueryRows>) -> (r: AuthStep)
        ensures
            q == AdminQuery::Login ==> if login_found(reply) {
                r == AuthStep::Done(
                    Ok(
                        AdministratorCookie {
                            userid: reply->Some_0.first->Some_0.userid,
                            username: reply->Some_0.first->Some_0.username,
                            display: reply->Some_0.first->Some_0.display,
                        },
                    ),
                )
            } else {
                r == AuthStep::Run(AdminQuery::IsUser)
            },
            q != AdminQuery::Login ==> if found_nothing(reply) {
                r matches AuthStep::Done(Err(f)) && f.user == self.username && f.msg@
                    == no_row_message(q)
            } else if q == AdminQuery::Password {
                r matches AuthStep::Done(Err(f)) && f.user == self.username && f.msg@
                    == unknown_failure_message()
            } else {
                r == AuthStep::Run(
                    if q == AdminQuery::IsUser {
                        AdminQuery::IsAdmin
                    } else {
                        AdminQuery::Password
                    },
                )
            },
            // Every failure names the user who tried to log in.
            r matches AuthStep::Done(Err(f)) ==> f.user == self.username,
            // Only the login query, finding exactly one row, logs in.
            r matches AuthStep::Done(Ok(_)) ==> q == AdminQuery::Login && login_found(reply),
            // Queries are made in order, each at most once.
            r matches AuthStep::Run(next) ==> stage_index(next) == stage_index(q) + 1,
    {
        match q {
            AdminQuery::Login => {
                match reply {
                    Some(rows) => {
                        if rows.count == 1 {
                            match rows.first {
                                Some(row) => {
                                    return AuthStep::Done(
                                        Ok(
                                            AdministratorCookie {
                                                userid: row.userid,
                                                username: row.username,
                                                display: row.display,
                                            },
                                        ),
                                    );
                                },
                                None => {},
                            }
                        }
                    },
                    None => {},
                }
                AuthStep::Run(AdminQuery::IsUser)
            },
            _ => {
                let empty = match &reply {
                    Some(rows) => rows.count == 0,
                    None => false,
                };
                match q {
                    AdminQuery::IsUser => if empty {
                        self.refuse("Username was not found.")
                    } else {
                        AuthStep::Run(AdminQuery::IsAdmin)
                    },
                    AdminQuery::IsAdmin => if empty {
                        self.refuse("User does not have administrator priveleges.")
                    } else {
                        AuthStep::Run(AdminQuery::Password)
                    },
                    _ => if empty {
                        self.refuse("Invalid username / password combination.")
                    } else {
                        self.refuse("Unkown error..")
                    },
                }
            },
        }
    }
}

} // verus!
