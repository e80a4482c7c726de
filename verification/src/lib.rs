//! Authorization helpers for web applications: login forms, authorization
//! cookies and the redirects that follow a login attempt, with an
//! administrator login as a worked example.
pub mod authorization;
pub mod administrator;
