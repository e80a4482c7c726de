# rocket_auth_login

Authorization helpers for Rocket applications, written in Verus.

- `src/authorization.rs`: the login form, the authorization cookie guard and
  the redirect after a login attempt, with their contracts and laws.
- `src/administrator.rs`: an administrator login backed by a `users` table,
  as a state machine over the database queries.
- `app/`: the Rocket glue (guards, cookie jar, redirects, JSON cookies).
- `tests/`: tests of the library on concrete values.
