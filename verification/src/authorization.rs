//! Login forms, authorization cookies and the decisions taken around them.
//!
//! The web framework performs the I/O (reading cookies and request bodies,
//! setting cookies, redirecting); this module decides what is to be done.
use vstd::prelude::*;

verus! {

/// The `user` query parameter of a login page.
#[derive(Debug, Clone)]
pub struct UserQuery {
    pub user: String,
}

/// A request guard holding the deserialized contents of an authorization cookie.
#[derive(Debug, Clone)]
pub struct AuthCont<T> {
    pub cookie: T,
}

/// Why an authentication attempt failed, and for which user.
#[derive(Debug, Clone)]
pub struct AuthFail {
    pub user: String,
    pub msg: String,
}

impl AuthFail {
    pub fn new(user: String, msg: String) -> (r: AuthFail)
        ensures
            r.user == user,
            r.msg == msg,
    {
        AuthFail { user, msg }
    }
}

/// The login form submitted by a user.
#[derive(Debug, Clone)]
pub struct LoginCont<T> {
    pub form: T,
}

impl<T: Clone> LoginCont<T> {
    /// A copy of the login form.
    pub fn form(&self) -> (r: T)
        ensures
            cloned(self.form, r),
    {
        self.form.clone()
    }
}

impl<T: Clone> AuthCont<T> {
    /// A copy of the cookie data.
    pub fn cookie_data(&self) -> (r: T)
        ensures
            cloned(self.cookie, r),
    {
        self.cookie.clone()
    }
}

/// The name (id) of the cookie that holds a type's authorization data.
///
/// A secured cookie of the same name set by another application cannot be
/// read without TLS, so pick a name that no other cookie uses.
pub trait CookieId {
    fn cookie_id<'a>() -> (id: &'a str)
        default_ensures
            id@ == "sid"@,
    {
        "sid"
    }
}

/// The query string that sends a user back to the login form with the
/// attempted user name: `?user=<user>`.
pub open spec fn spec_fail_url(user: Seq<char>) -> Seq<char> {
    "?user="@ + user
}

/// The default query string appended to the failure page: `?user=<user>`.
pub fn fail_url(user: &str) -> (r: String)
    ensures
        r@ == spec_fail_url(user@),
{
    let mut output = String::from_str("?user=");
    output.append(user);
    output
}

pub open spec fn string_opt_view(o: Option<String>) -> Option<Seq<char>> {
    match o {
        Some(s) => Some(s@),
        None => None,
    }
}

// ---------------------------------------------------------------------------
// Form values
// ---------------------------------------------------------------------------
/// One `key=value` pair of a form, both as text.
#[derive(Debug, Clone)]
pub struct FormField {
    pub key: String,
    pub value: String,
}

impl View for FormField {
    type V = (Seq<char>, Seq<char>);

    open spec fn view(&self) -> (Seq<char>, Seq<char>) {
        (self.key@, self.value@)
    }
}

pub open spec fn fields_view(fields: Seq<FormField>) -> Seq<(Seq<char>, Seq<char>)> {
    fields.map_values(|f: FormField| f@)
}

/// What rocket's `RawStr::url_decode` gives for a raw form value
/// (`None` where the decoded bytes are not UTF-8).
pub uninterp spec fn url_decoded(raw: Seq<char>) -> Option<Seq<char>>;

/// `s` with every `+` replaced by a space.
pub open spec fn plus_as_space(s: Seq<char>) -> Seq<char> {
    s.map_values(|c: char| if c == '+' { ' ' } else { c })
}

/// Whether `c` is a hexadecimal digit (either case).
pub open spec fn is_hex_digit(c: char) -> bool {
    (0x30 <= c as int <= 0x39) || (0x41 <= c as int <= 0x46) || (0x61 <= c as int <= 0x66)
}

/// The value of the hexadecimal digit `c`.
pub open spec fn hex_value(c: char) -> int {
    if c as int <= 0x39 {
        c as int - 0x30
    } else if c as int <= 0x46 {
        c as int - 0x41 + 10
    } else {
        c as int - 0x61 + 10
    }
}

/// Percent-decoding: each `%` followed by two hexadecimal digits stands for
/// the character of that code; any other `%` stays as it is. (Meant for
/// escapes of ASCII characters, see `ascii_escapes_only`.)
pub open spec fn percent_decoded(s: Seq<char>) -> Seq<char>
    decreases s.len(),
{
    if s.len() == 0 {
        Seq::empty()
    } else if s.len() >= 3 && s[0] == '%' && is_hex_digit(s[1]) && is_hex_digit(s[2]) {
        seq![(16 * hex_value(s[1]) + hex_value(s[2])) as char] + percent_decoded(s.skip(3))
    } else {
        seq![s[0]] + percent_decoded(s.skip(1))
    }
}

/// Every `%XY` escape in `s` stands for an ASCII character (below 0x80).
pub open spec fn ascii_escapes_only(s: Seq<char>) -> bool {
    forall|i: int|
        #![trigger s[i]]
        0 <= i && i + 2 < s.len() && s[i] == '%' && is_hex_digit(s[i + 1]) && is_hex_digit(
            s[i + 2],
        ) ==> hex_value(s[i + 1]) < 8
}

/// Calls `rocket::http::RawStr::url_decode`. Its result is named
/// `url_decoded`. Stated of it is what the source shows: each raw `+`
/// becomes a space, then `%XY` escapes are percent-decoded (any other `%`
/// is kept) and the bytes are read as UTF-8. Where every escape stands for
/// an ASCII character that reading cannot fail, and the result is
/// `percent_decoded(plus_as_space(raw))`. What escapes of non-ASCII bytes
/// give is left unsaid.
#[verifier::external_body]
fn url_decode(raw: &str) -> (r: Option<String>)
    ensures
        string_opt_view(r) == url_decoded(raw@),
        (forall|i: int| 0 <= i < raw@.len() ==> raw@[i] != '%') ==> string_opt_view(r) == Some(
            plus_as_space(raw@),
        ),
        ascii_escapes_only(raw@) ==> string_opt_view(r) == Some(
            percent_decoded(plus_as_space(raw@)),
        ),
{
    match rocket::http::RawStr::new(raw).url_decode() {
        Ok(decoded) => Some(decoded.into_owned()),
        Err(_) => None,
    }
}

/// A decoded form value, or the empty text where decoding fails.
pub open spec fn decoded_or_empty(raw: Seq<char>) -> Seq<char> {
    match url_decoded(raw) {
        Some(s) => s,
        None => Seq::empty(),
    }
}

/// The hexadecimal digit (upper case) of `n`, for `0 <= n < 16`.
pub open spec fn hex_char(n: int) -> char {
    if n < 10 {
        (0x30 + n) as char
    } else {
        (0x41 + n - 10) as char
    }
}

/// `t` with every character written as a `%XY` escape.
pub open spec fn escape_all(t: Seq<char>) -> Seq<char>
    decreases t.len(),
{
    if t.len() == 0 {
        Seq::empty()
    } else {
        seq!['%', hex_char(t[0] as int / 16), hex_char(t[0] as int % 16)] + escape_all(t.skip(1))
    }
}

/// All characters of `t` are ASCII.
pub open spec fn is_ascii_text(t: Seq<char>) -> bool {
    forall|i: int| #![trigger t[i]] 0 <= i < t.len() ==> 0 <= (t[i] as int) < 0x80
}

/// `t` holds neither `%` nor `+`: text that form encoding leaves alone.
pub open spec fn is_plain_text(t: Seq<char>) -> bool {
    forall|i: int| 0 <= i < t.len() ==> #[trigger] t[i] != '%' && t[i] != '+'
}

proof fn lemma_hex_char(n: int)
    requires
        0 <= n < 16,
    ensures
        is_hex_digit(hex_char(n)),
        hex_value(hex_char(n)) == n,
        hex_char(n) != '+',
        hex_char(n) != '%',
{
    if n < 10 {
        assert(((0x30 + n) as char) as int == 0x30 + n);
    } else {
        assert(((0x41 + n - 10) as char) as int == 0x41 + n - 10);
    }
}

proof fn lemma_escape_all_shape(t: Seq<char>)
    requires
        is_ascii_text(t),
    ensures
        escape_all(t).len() == 3 * t.len(),
        forall|k: int|
            #![trigger escape_all(t)[k]]
            0 <= k < escape_all(t).len() ==> if k % 3 == 0 {
                escape_all(t)[k] == '%'
            } else {
                is_hex_digit(escape_all(t)[k]) && escape_all(t)[k] != '+' && escape_all(t)[k]
                    != '%' && (k % 3 == 1 ==> hex_value(escape_all(t)[k]) < 8)
            },
    decreases t.len(),
{
    if t.len() > 0 {
        let rest = t.skip(1);
        assert(is_ascii_text(rest)) by {
            assert forall|i: int| #![trigger rest[i]] 0 <= i < rest.len() implies 0 <= (rest[i] as int)
                < 0x80 by {
                assert(rest[i] == t[i + 1]);
            }
        }
        lemma_escape_all_shape(rest);
        let e = escape_all(t);
        let c = t[0] as int;
        let head = seq!['%', hex_char(c / 16), hex_char(c % 16)];
        assert(0 <= c < 0x80);
        assert(0 <= c / 16 < 8 && 0 <= c % 16 < 16) by (nonlinear_arith)
            requires
                0 <= c < 0x80,
        ;
        lemma_hex_char(c / 16);
        lemma_hex_char(c % 16);
        assert(e == head + escape_all(rest));
        assert forall|k: int|
            #![trigger e[k]]
            0 <= k < e.len() implies if k % 3 == 0 {
            e[k] == '%'
        } else {
            is_hex_digit(e[k]) && e[k] != '+' && e[k] != '%' && (k % 3 == 1 ==> hex_value(e[k])
                < 8)
        } by {
            if k >= 3 {
                let r = escape_all(rest);
                assert(e[k] == r[k - 3]);
                assert((k - 3) % 3 == k % 3);
                assert(0 <= k - 3 < r.len());
            } else if k == 0 {
                assert(e[k] == head[0]);
            } else if k == 1 {
                assert(e[k] == head[1]);
            } else {
                assert(e[k] == head[2]);
            }
        }
    }
}

proof fn lemma_plus_as_space_plain(s: Seq<char>)
    requires
        forall|i: int| 0 <= i < s.len() ==> #[trigger] s[i] != '+',
    ensures
        plus_as_space(s) == s,
{
    assert(plus_as_space(s) =~= s);
}

/// Percent-decoding the escaped form of an ASCII text gives the text back.
pub proof fn escaped_text_decodes_back(t: Seq<char>)
    requires
        is_ascii_text(t),
    ensures
        ascii_escapes_only(escape_all(t)),
        percent_decoded(plus_as_space(escape_all(t))) == t,
    decreases t.len(),
{
    lemma_escape_all_shape(t);
    let e = escape_all(t);
    lemma_plus_as_space_plain(e);
    assert forall|i: int|
        #![trigger e[i]]
        0 <= i && i + 2 < e.len() && e[i] == '%' && is_hex_digit(e[i + 1]) && is_hex_digit(
            e[i + 2],
        ) implies hex_value(e[i + 1]) < 8 by {
        assert(e[i + 1] == e[i + 1]);
    }
    if t.len() > 0 {
        let rest = t.skip(1);
        assert(is_ascii_text(rest)) by {
            assert forall|i: int| #![trigger rest[i]] 0 <= i < rest.len() implies 0 <= (rest[i] as int)
                < 0x80 by {
                assert(rest[i] == t[i + 1]);
            }
        }
        escaped_text_decodes_back(rest);
        lemma_escape_all_shape(rest);
        lemma_plus_as_space_plain(escape_all(rest));
        let c = t[0] as int;
        assert(0 <= c < 0x80);
        assert(0 <= c / 16 < 8 && 0 <= c % 16 < 16) by (nonlinear_arith)
            requires
                0 <= c < 0x80,
        ;
        lemma_hex_char(c / 16);
        lemma_hex_char(c % 16);
        assert(e.skip(3) =~= escape_all(rest));
        assert(hex_value(hex_char(c / 16)) == c / 16);
        assert(hex_value(hex_char(c % 16)) == c % 16);
        assert(16 * (c / 16) + c % 16 == c);
        assert(((c as char) as int) == c);
        assert(percent_decoded(e) =~= seq![t[0]] + percent_decoded(escape_all(rest)));
        assert(percent_decoded(e) =~= t);
    } else {
        assert(percent_decoded(e) =~= t);
    }
}

proof fn lemma_percent_decoded_plain_prefix(a: Seq<char>, b: Seq<char>)
    requires
        is_plain_text(a),
    ensures
        percent_decoded(a + b) == a + percent_decoded(b),
    decreases a.len(),
{
    if a.len() > 0 {
        let rest = a.skip(1);
        assert(is_plain_text(rest)) by {
            assert forall|i: int| 0 <= i < rest.len() implies #[trigger] rest[i] != '%' && rest[i]
                != '+' by {
                assert(rest[i] == a[i + 1]);
            }
        }
        lemma_percent_decoded_plain_prefix(rest, b);
        assert(a[0] != '%');
        assert((a + b)[0] == a[0]);
        assert((a + b).skip(1) =~= rest + b);
        assert(percent_decoded(a + b) =~= a + percent_decoded(b));
    } else {
        assert(a + b =~= b);
        assert(a + percent_decoded(b) =~= percent_decoded(b));
    }
}

/// `a`, an escaped plus sign `%2B`, then `b`.
pub open spec fn with_escaped_plus(a: Seq<char>, b: Seq<char>) -> Seq<char> {
    a + seq!['%', '2', 'B'] + b
}

/// An escaped plus sign (`%2B`) decodes to `+`, while the plain text around
/// it stays as it is: only raw `+` characters become spaces.
pub proof fn escaped_plus_stays_plus(a: Seq<char>, b: Seq<char>)
    requires
        is_plain_text(a),
        is_plain_text(b),
    ensures
        ascii_escapes_only(with_escaped_plus(a, b)),
        percent_decoded(plus_as_space(with_escaped_plus(a, b))) == a + seq!['+'] + b,
{
    let raw = with_escaped_plus(a, b);
    assert forall|i: int| 0 <= i < raw.len() implies #[trigger] raw[i] != '+' by {
        if i < a.len() {
            assert(raw[i] == a[i]);
        } else if i >= a.len() + 3 {
            assert(raw[i] == b[i - a.len() - 3]);
        }
    }
    lemma_plus_as_space_plain(raw);
    assert forall|i: int|
        #![trigger raw[i]]
        0 <= i && i + 2 < raw.len() && raw[i] == '%' && is_hex_digit(raw[i + 1]) && is_hex_digit(
            raw[i + 2],
        ) implies hex_value(raw[i + 1]) < 8 by {
        if i < a.len() {
            assert(raw[i] == a[i]);
        } else if i >= a.len() + 3 {
            assert(raw[i] == b[i - a.len() - 3]);
        } else {
            assert(i == a.len());
            assert(raw[i + 1] == '2');
        }
    }
    let tail = seq!['%', '2', 'B'] + b;
    assert(raw =~= a + tail);
    lemma_percent_decoded_plain_prefix(a, tail);
    assert(tail.skip(3) =~= b);
    assert(percent_decoded(b) == b) by {
        lemma_percent_decoded_plain_prefix(b, Seq::empty());
        assert(b + Seq::<char>::empty() =~= b);
    }
    assert(percent_decoded(tail) =~= seq!['+'] + b);
    assert(a + (seq!['+'] + b) =~= a + seq!['+'] + b);
}

/// The value `raw` decodes as form encoding says: raw `+` becomes a space
/// and each `%XY` escape the character it stands for (for values whose
/// escapes stand for ASCII characters).
pub open spec fn decodes_by_percent(raw: Seq<char>) -> bool {
    ascii_escapes_only(raw) ==> decoded_or_empty(raw) == percent_decoded(plus_as_space(raw))
}

/// Decodes a raw form value, as a browser's form encoding is read: each raw
/// `+` becomes a space and each `%XY` escape becomes the character it
/// stands for; a value that does not decode becomes empty.
pub fn decode_form_value(raw: &str) -> (r: String)
    ensures
        r@ == decoded_or_empty(raw@),
        (forall|i: int| 0 <= i < raw@.len() ==> raw@[i] != '%') ==> r@ == plus_as_space(raw@),
        ascii_escapes_only(raw@) ==> r@ == percent_decoded(plus_as_space(raw@)),
        // The escaped form of any ASCII text decodes back to that text.
        forall|t: Seq<char>| is_ascii_text(t) && raw@ == #[trigger] escape_all(t) ==> r@ == t,
        // `%2B` between plain texts decodes to `+`, not to a space.
        forall|a: Seq<char>, b: Seq<char>|
            is_plain_text(a) && is_plain_text(b) && raw@ == #[trigger] with_escaped_plus(a, b)
                ==> r@ == a + seq!['+'] + b,
{
    let r = match url_decode(raw) {
        Some(s) => s,
        None => String::new(),
    };
    proof {
        assert forall|t: Seq<char>| is_ascii_text(t) && raw@ == #[trigger] escape_all(t) implies r@
            == t by {
            escaped_text_decodes_back(t);
        }
        assert forall|a: Seq<char>, b: Seq<char>|
            is_plain_text(a) && is_plain_text(b) && raw@ == #[trigger] with_escaped_plus(a, b)
                implies r@ == a + seq!['+'] + b by {
            escaped_plus_stays_plus(a, b);
        }
    }
    r
}

/// `s` cut at every `sep`, as `str::split` cuts it: `n` separators give
/// `n + 1` pieces, some of them possibly empty.
pub open spec fn split_pieces(s: Seq<char>, sep: char) -> Seq<Seq<char>>
    decreases s.len(),
{
    if s.len() == 0 {
        seq![Seq::empty()]
    } else {
        let rest = split_pieces(s.drop_last(), sep);
        if s.last() == sep {
            rest.push(Seq::empty())
        } else {
            rest.update(rest.len() - 1, rest.last().push(s.last()))
        }
    }
}

/// `p` cut at its first `sep`: what comes before and what comes after it,
/// or `p` and the empty text when `p` holds no `sep`.
pub open spec fn split_at_first(p: Seq<char>, sep: char) -> (Seq<char>, Seq<char>)
    decreases p.len(),
{
    if p.len() == 0 {
        (Seq::empty(), Seq::empty())
    } else if p[0] == sep {
        (Seq::empty(), p.skip(1))
    } else {
        let (before, after) = split_at_first(p.skip(1), sep);
        (seq![p[0]] + before, after)
    }
}

/// The `key=value` pairs of an `application/x-www-form-urlencoded` body,
/// keys and values still encoded: the body is cut at every `&`, empty pieces
/// are dropped, and each piece is cut at its first `=` (a piece without `=`
/// is a key with an empty value).
pub open spec fn form_fields_of(body: Seq<char>) -> Seq<(Seq<char>, Seq<char>)> {
    fields_of_pieces(split_pieces(body, '&'))
}

/// The non-empty pieces, each cut at its first `=`.
pub open spec fn fields_of_pieces(pieces: Seq<Seq<char>>) -> Seq<(Seq<char>, Seq<char>)>
    decreases pieces.len(),
{
    if pieces.len() == 0 {
        Seq::empty()
    } else {
        let rest = fields_of_pieces(pieces.drop_last());
        if pieces.last().len() > 0 {
            rest.push(split_at_first(pieces.last(), '='))
        } else {
            rest
        }
    }
}

/// An empty form body has no fields.
pub proof fn empty_body_has_no_fields()
    ensures
        form_fields_of(Seq::empty()) == Seq::<(Seq<char>, Seq<char>)>::empty(),
{
    let pieces = split_pieces(Seq::<char>::empty(), '&');
    assert(pieces =~= seq![Seq::<char>::empty()]);
    assert(pieces.drop_last() =~= Seq::<Seq<char>>::empty());
    assert(pieces.last().len() == 0);
    assert(fields_of_pieces(pieces.drop_last()) =~= Seq::<(Seq<char>, Seq<char>)>::empty());
    assert(fields_of_pieces(pieces) =~= Seq::<(Seq<char>, Seq<char>)>::empty());
    assert(form_fields_of(Seq::empty()) =~= Seq::<(Seq<char>, Seq<char>)>::empty());
}

/// Calls `rocket::form::Form::values` and copies each field's raw name and
/// value. Rocket splits the body on `&`, drops empty pieces and splits each
/// piece at its first `=` without decoding anything, which is what
/// `form_fields_of` states.
#[verifier::external_body]
fn split_form_body(body: &str) -> (r: Vec<FormField>)
    ensures
        fields_view(r@) == form_fields_of(body@),
{
    rocket::form::Form::values(body).map(
        |f| FormField { key: f.name.source().as_str().to_string(), value: f.value.to_string() },
    ).collect()
}

/// The decoded value of the last field named `key`, if any.
pub open spec fn last_decoded(fields: Seq<(Seq<char>, Seq<char>)>, key: Seq<char>) -> Option<
    Seq<char>,
>
    decreases fields.len(),
{
    if fields.len() == 0 {
        None
    } else if fields.last().0 == key {
        Some(decoded_or_empty(fields.last().1))
    } else {
        last_decoded(fields.drop_last(), key)
    }
}

pub open spec fn is_credential(key: Seq<char>) -> bool {
    key == "username"@ || key == "password"@
}

/// Every field other than `username` and `password`, each key with the
/// decoded value of its last occurrence.
pub open spec fn extra_fields(fields: Seq<(Seq<char>, Seq<char>)>) -> Map<Seq<char>, Seq<char>>
    decreases fields.len(),
{
    if fields.len() == 0 {
        Map::empty()
    } else {
        let rest = extra_fields(fields.drop_last());
        let (k, v) = fields.last();
        if is_credential(k) {
            rest
        } else {
            rest.insert(k, decoded_or_empty(v))
        }
    }
}

/// The user name and password are never among the extra fields of a login
/// form, however often they are submitted.
pub proof fn credentials_are_never_extras(fields: Seq<(Seq<char>, Seq<char>)>)
    ensures
        !extra_fields(fields).dom().contains("username"@),
        !extra_fields(fields).dom().contains("password"@),
    decreases fields.len(),
{
    if fields.len() > 0 {
        credentials_are_never_extras(fields.drop_last());
    }
}

/// The map that a list of pairs describes, later pairs winning.
pub open spec fn pairs_map(pairs: Seq<(Seq<char>, Seq<char>)>) -> Map<Seq<char>, Seq<char>>
    decreases pairs.len(),
{
    if pairs.len() == 0 {
        Map::empty()
    } else {
        pairs_map(pairs.drop_last()).insert(pairs.last().0, pairs.last().1)
    }
}

pub open spec fn keys_distinct(pairs: Seq<(Seq<char>, Seq<char>)>) -> bool {
    forall|a: int, b: int| 0 <= a < b < pairs.len() ==> #[trigger] pairs[a].0 != #[trigger] pairs[b].0
}

proof fn lemma_pairs_map_update(s: Seq<(Seq<char>, Seq<char>)>, j: int, v: Seq<char>)
    requires
        keys_distinct(s),
        0 <= j < s.len(),
    ensures
        pairs_map(s.update(j, (s[j].0, v))) == pairs_map(s).insert(s[j].0, v),
    decreases s.len(),
{
    let t = s.update(j, (s[j].0, v));
    if j == s.len() - 1 {
        assert(t.drop_last() =~= s.drop_last());
        assert(pairs_map(t) =~= pairs_map(s).insert(s[j].0, v));
    } else {
        let d = s.drop_last();
        assert(t.drop_last() =~= d.update(j, (d[j].0, v)));
        assert(keys_distinct(d)) by {
            assert forall|a: int, b: int| 0 <= a < b < d.len() implies #[trigger] d[a].0
                != #[trigger] d[b].0 by {
                assert(d[a] == s[a] && d[b] == s[b]);
            }
        }
        lemma_pairs_map_update(d, j, v);
        assert(s[j].0 != s.last().0);
        assert(pairs_map(t) =~= pairs_map(s).insert(s[j].0, v));
    }
}

/// Sets `key` to `value` among `extras`, replacing an earlier value of the
/// same key.
fn put_extra(extras: &mut Vec<FormField>, key: String, value: String)
    requires
        keys_distinct(fields_view(old(extras)@)),
    ensures
        keys_distinct(fields_view(final(extras)@)),
        pairs_map(fields_view(final(extras)@)) == pairs_map(fields_view(old(extras)@)).insert(
            key@,
            value@,
        ),
{
    let ghost before = fields_view(extras@);
    let mut j: usize = 0;
    while j < extras.len()
        invariant
            j <= extras.len(),
            before == fields_view(extras@),
            before == fields_view(old(extras)@),
            keys_distinct(before),
            forall|k: int| 0 <= k < j ==> extras@[k].key@ != key@,
        decreases extras.len() - j,
    {
        if extras[j].key == key {
            assert(before[j as int].0 == key@);
            extras.set(j, FormField { key, value });
            proof {
                assert(fields_view(extras@) =~= before.update(j as int, (before[j as int].0, value@)));
                lemma_pairs_map_update(before, j as int, value@);
                assert(pairs_map(fields_view(extras@)) == pairs_map(before).insert(key@, value@));
                let after = fields_view(extras@);
                assert forall|a: int, b: int| 0 <= a < b < after.len() implies #[trigger] after[a].0
                    != #[trigger] after[b].0 by {
                    assert(after[a].0 == before[a].0 && after[b].0 == before[b].0);
                }
            }
            return;
        }
        j += 1;
    }
    extras.push(FormField { key, value });
    proof {
        let after = fields_view(extras@);
        assert(after =~= before.push((key@, value@)));
        assert(after.drop_last() =~= before);
        assert forall|a: int, b: int| 0 <= a < b < after.len() implies #[trigger] after[a].0
            != #[trigger] after[b].0 by {
            if b == after.len() - 1 {
                assert(after[a].0 == extras@[a].key@);
            } else {
                assert(after[a] == before[a] && after[b] == before[b]);
            }
        }
    }
}

/// The fields of a login form: the last `username` and `password` (decoded,
/// not yet cleaned) and every other field.
#[derive(Debug, Clone)]
pub struct LoginFields {
    pub user: Option<String>,
    pub pass: Option<String>,
    /// `None` when the form has no field besides the credentials.
    pub extras: Option<Vec<FormField>>,
}

/// Sorts the fields of a submitted login form. A form without a username or
/// password is accepted too: whether they are needed is up to
/// authentication.
pub fn collect_login_fields(fields: &Vec<FormField>) -> (r: LoginFields)
    ensures
        string_opt_view(r.user) == last_decoded(fields_view(fields@), "username"@),
        string_opt_view(r.pass) == last_decoded(fields_view(fields@), "password"@),
        r.extras is None <==> extra_fields(fields_view(fields@)) == Map::<
            Seq<char>,
            Seq<char>,
        >::empty(),
        r.extras matches Some(v) ==> keys_distinct(fields_view(v@)) && pairs_map(fields_view(v@))
            == extra_fields(fields_view(fields@)),
        forall|j: int|
            0 <= j < fields@.len() ==> decodes_by_percent(#[trigger] fields_view(fields@)[j].1),
{
    let ghost fv = fields_view(fields@);
    let username = String::from_str("username");
    let password = String::from_str("password");
    proof {
        reveal_strlit("username");
        reveal_strlit("password");
        assert("username"@[0] != "password"@[0]);
        assert(fv.take(0) =~= Seq::<(Seq<char>, Seq<char>)>::empty());
        assert(pairs_map(Seq::<(Seq<char>, Seq<char>)>::empty()) =~= extra_fields(fv.take(0)));
    }
    let mut user: Option<String> = None;
    let mut pass: Option<String> = None;
    let mut extras: Vec<FormField> = Vec::new();
    let mut i: usize = 0;
    while i < fields.len()
        invariant
            i <= fields.len(),
            fv == fields_view(fields@),
            username@ == "username"@,
            password@ == "password"@,
            "username"@ != "password"@,
            string_opt_view(user) == last_decoded(fv.take(i as int), "username"@),
            string_opt_view(pass) == last_decoded(fv.take(i as int), "password"@),
            keys_distinct(fields_view(extras@)),
            pairs_map(fields_view(extras@)) == extra_fields(fv.take(i as int)),
            forall|j: int| 0 <= j < i ==> decodes_by_percent(#[trigger] fv[j].1),
        decreases fields.len() - i,
    {
        let field = &fields[i];
        let value = decode_form_value(field.value.as_str());
        proof {
            assert(fv.take(i + 1).drop_last() =~= fv.take(i as int));
            assert(fv.take(i + 1).last() == fv[i as int]);
            assert(fv[i as int] == field@);
            assert(decodes_by_percent(fv[i as int].1));
        }
        if field.key == username {
            user = Some(value);
        } else if field.key == password {
            pass = Some(value);
        } else {
            put_extra(&mut extras, field.key.clone(), value);
        }
        i += 1;
    }
    proof {
        assert(fv.take(fields.len() as int) =~= fv);
    }
    if extras.len() == 0 {
        proof {
            assert(fields_view(extras@) =~= Seq::<(Seq<char>, Seq<char>)>::empty());
        }
        LoginFields { user, pass, extras: None }
    } else {
        proof {
            let pv = fields_view(extras@);
            assert(pairs_map(pv).dom().contains(pv.last().0));
        }
        LoginFields { user, pass, extras: Some(extras) }
    }
}

impl LoginFields {
    /// Reads a login form from its raw body.
    pub fn from_body(body: &str) -> (r: LoginFields)
        ensures
            string_opt_view(r.user) == last_decoded(form_fields_of(body@), "username"@),
            string_opt_view(r.pass) == last_decoded(form_fields_of(body@), "password"@),
            r.extras is None <==> extra_fields(form_fields_of(body@)) == Map::<
                Seq<char>,
                Seq<char>,
            >::empty(),
            r.extras matches Some(v) ==> keys_distinct(fields_view(v@)) && pairs_map(
                fields_view(v@),
            ) == extra_fields(form_fields_of(body@)),
            body@.len() == 0 ==> r.user is None && r.pass is None && r.extras is None,
            forall|j: int|
                0 <= j < form_fields_of(body@).len() ==> decodes_by_percent(
                    #[trigger] form_fields_of(body@)[j].1,
                ),
    {
        let fields = split_form_body(body);
        proof {
            empty_body_has_no_fields();
            if body@.len() == 0 {
                assert(body@ =~= Seq::<char>::empty());
                assert(extra_fields(form_fields_of(body@)) =~= Map::<Seq<char>, Seq<char>>::empty());
            }
        }
        collect_login_fields(&fields)
    }
}

impl UserQuery {
    /// The decoded value of the last `user` field (not yet sanitized).
    pub fn requested_user(fields: &Vec<FormField>) -> (r: Option<String>)
        ensures
            string_opt_view(r) == last_decoded(fields_view(fields@), "user"@),
            forall|j: int|
                0 <= j < fields@.len() && (#[trigger] fields_view(fields@)[j]).0 == "user"@
                    ==> decodes_by_percent(fields_view(fields@)[j].1),
    {
        let ghost fv = fields_view(fields@);
        let user_key = String::from_str("user");
        let mut name: Option<String> = None;
        let mut i: usize = 0;
        while i < fields.len()
            invariant
                i <= fields.len(),
                fv == fields_view(fields@),
                user_key@ == "user"@,
                string_opt_view(name) == last_decoded(fv.take(i as int), "user"@),
                forall|j: int|
                    0 <= j < i && (#[trigger] fv[j]).0 == "user"@ ==> decodes_by_percent(fv[j].1),
            decreases fields.len() - i,
        {
            let field = &fields[i];
            proof {
                assert(fv.take(i + 1).drop_last() =~= fv.take(i as int));
                assert(fv.take(i + 1).last() == fv[i as int]);
                assert(fv[i as int] == field@);
            }
            if field.key == user_key {
                let value = decode_form_value(field.value.as_str());
                assert(decodes_by_percent(fv[i as int].1));
                name = Some(value);
            }
            i += 1;
        }
        proof {
            assert(fv.take(fields.len() as int) =~= fv);
        }
        name
    }

    /// Reads the requested user from a raw query string or form body.
    pub fn requested_user_in(body: &str) -> (r: Option<String>)
        ensures
            string_opt_view(r) == last_decoded(form_fields_of(body@), "user"@),
            body@.len() == 0 ==> r is None,
            forall|j: int|
                0 <= j < form_fields_of(body@).len() && (#[trigger] form_fields_of(body@)[j]).0
                    == "user"@ ==> decodes_by_percent(form_fields_of(body@)[j].1),
    {
        let fields = split_form_body(body);
        proof {
            empty_body_has_no_fields();
            if body@.len() == 0 {
                assert(body@ =~= Seq::<char>::empty());
            }
        }
        Self::requested_user(&fields)
    }
}

// ---------------------------------------------------------------------------
// Redirecting after a login attempt
// ---------------------------------------------------------------------------
/// What to do after a login attempt.
#[derive(Debug, Clone)]
pub enum LoginAction {
    /// Store `cookie_value` in the private cookie `cookie_name` and redirect
    /// to `location`.
    Authorized { cookie_name: String, cookie_value: String, location: String },
    /// The attempt failed for a named user: append the form's failure query
    /// string for `user` to `location` (see `with_user_query`), then redirect
    /// there with the flash message.
    NeedsUserQuery { location: String, user: String, flash_message: String },
    /// Redirect to `location` with `flash_message` as an error flash.
    Refused { location: String, flash_message: String },
}

/// The abstract value of a `LoginAction`.
pub enum LoginActionView {
    Authorized { cookie_name: Seq<char>, cookie_value: Seq<char>, location: Seq<char> },
    NeedsUserQuery { location: Seq<char>, user: Seq<char>, flash_message: Seq<char> },
    Refused { location: Seq<char>, flash_message: Seq<char> },
}

impl View for LoginAction {
    type V = LoginActionView;

    open spec fn view(&self) -> LoginActionView {
        match self {
            LoginAction::Authorized { cookie_name, cookie_value, location } => {
                LoginActionView::Authorized {
                    cookie_name: cookie_name@,
                    cookie_value: cookie_value@,
                    location: location@,
                }
            },
            LoginAction::NeedsUserQuery { location, user, flash_message } => {
                LoginActionView::NeedsUserQuery {
                    location: location@,
                    user: user@,
                    flash_message: flash_message@,
                }
            },
            LoginAction::Refused { location, flash_message } => LoginActionView::Refused {
                location: location@,
                flash_message: flash_message@,
            },
        }
    }
}

impl View for AuthFail {
    type V = (Seq<char>, Seq<char>);

    open spec fn view(&self) -> (Seq<char>, Seq<char>) {
        (self.user@, self.msg@)
    }
}

/// An authentication result as text: the serialized cookie, or the failing
/// user and message.
pub open spec fn auth_view(auth: Result<String, AuthFail>) -> Result<
    Seq<char>,
    (Seq<char>, Seq<char>),
> {
    match auth {
        Ok(c) => Ok(c@),
        Err(f) => Err(f@),
    }
}

/// The action after a login attempt.
pub open spec fn spec_after_login(
    auth: Result<Seq<char>, (Seq<char>, Seq<char>)>,
    cookie_name: Seq<char>,
    ok_redir: Seq<char>,
    err_redir: Seq<char>,
) -> LoginActionView {
    match auth {
        Ok(contents) => LoginActionView::Authorized {
            cookie_name,
            cookie_value: contents,
            location: ok_redir,
        },
        Err((user, msg)) => if user.len() == 0 {
            LoginActionView::Refused { location: err_redir, flash_message: msg }
        } else {
            LoginActionView::NeedsUserQuery { location: err_redir, user, flash_message: msg }
        },
    }
}

/// A `NeedsUserQuery` action completed with the failure query string.
pub open spec fn spec_with_user_query(action: LoginActionView, user_query: Seq<char>) -> LoginActionView {
    match action {
        LoginActionView::NeedsUserQuery { location, user, flash_message } => {
            LoginActionView::Refused { location: location + user_query, flash_message }
        },
        _ => action,
    }
}

/// Where a failed login leads when the failure query string is the default
/// `fail_url`.
pub open spec fn refusal_location(err_redir: Seq<char>, user: Seq<char>) -> Seq<char> {
    if user.len() == 0 {
        err_redir
    } else {
        err_redir + spec_fail_url(user)
    }
}

impl LoginAction {
    /// Decides the redirect after an authentication attempt. `auth` holds the
    /// serialized cookie on success.
    pub fn after_login(
        auth: Result<String, AuthFail>,
        cookie_name: &str,
        ok_redir: String,
        err_redir: String,
    ) -> (r: LoginAction)
        ensures
            r@ == spec_after_login(auth_view(auth), cookie_name@, ok_redir@, err_redir@),
    {
        match auth {
            Ok(contents) => LoginAction::Authorized {
                cookie_name: String::from_str(cookie_name),
                cookie_value: contents,
                location: ok_redir,
            },
            Err(fail) => {
                if fail.user.as_str().is_empty() {
                    LoginAction::Refused { location: err_redir, flash_message: fail.msg }
                } else {
                    LoginAction::NeedsUserQuery {
                        location: err_redir,
                        user: fail.user,
                        flash_message: fail.msg,
                    }
                }
            },
        }
    }

    /// Completes a `NeedsUserQuery` action with the failure query string for
    /// its user; any other action is returned unchanged.
    pub fn with_user_query(self, user_query: &str) -> (r: LoginAction)
        ensures
            r@ == spec_with_user_query(self@, user_query@),
            // The given query string, whatever it is, follows the location.
            self matches LoginAction::NeedsUserQuery { location, flash_message, .. } ==> r@ == (
            LoginActionView::Refused {
                location: location@ + user_query@,
                flash_message: flash_message@,
            }),
            !(self is NeedsUserQuery) ==> r@ == self@,
    {
        match self {
            LoginAction::NeedsUserQuery { location, user, flash_message } => {
                let mut location = location;
                location.append(user_query);
                LoginAction::Refused { location, flash_message }
            },
            other => other,
        }
    }
}

/// A successful login stores the serialized cookie under the cookie's name
/// and leads to the success page.
pub proof fn accepted_login_sets_cookie(
    contents: Seq<char>,
    cookie_name: Seq<char>,
    ok_redir: Seq<char>,
    err_redir: Seq<char>,
    user_query: Seq<char>,
)
    ensures
        spec_with_user_query(spec_after_login(Ok(contents), cookie_name, ok_redir, err_redir), user_query)
            == (LoginActionView::Authorized { cookie_name, cookie_value: contents, location: ok_redir }),
{
}

/// Completing a refusal appends exactly the given query string to the
/// location, for every query string (a form type may give its own failure
/// query string in place of `fail_url`), and keeps the flash message.
pub proof fn user_query_is_appended_verbatim(
    location: Seq<char>,
    user: Seq<char>,
    flash_message: Seq<char>,
    user_query: Seq<char>,
)
    ensures
        spec_with_user_query(
            LoginActionView::NeedsUserQuery { location, user, flash_message },
            user_query,
        ) == (LoginActionView::Refused { location: location + user_query, flash_message }),
        spec_with_user_query(
            LoginActionView::NeedsUserQuery { location, user, flash_message },
            user_query,
        )->Refused_location.len() == location.len() + user_query.len(),
{
}

/// The completed location depends on the query string handed over, not on
/// the user named: two refusals that differ only in the user lead to the
/// same place when completed with the same query string.
pub proof fn completion_ignores_the_user(
    location: Seq<char>,
    user1: Seq<char>,
    user2: Seq<char>,
    flash_message: Seq<char>,
    user_query: Seq<char>,
)
    ensures
        spec_with_user_query(
            LoginActionView::NeedsUserQuery { location, user: user1, flash_message },
            user_query,
        ) == spec_with_user_query(
            LoginActionView::NeedsUserQuery { location, user: user2, flash_message },
            user_query,
        ),
{
}

/// With the default failure query string, a refused login leads to the
/// error page, followed by `?user=<attempted user>` when the attempt named a
/// user, and flashes the failure message.
pub proof fn refused_login_returns_to_form(
    user: Seq<char>,
    msg: Seq<char>,
    cookie_name: Seq<char>,
    ok_redir: Seq<char>,
    err_redir: Seq<char>,
)
    ensures
        spec_with_user_query(
            spec_after_login(Err((user, msg)), cookie_name, ok_redir, err_redir),
            spec_fail_url(user),
        ) == (LoginActionView::Refused {
            location: refusal_location(err_redir, user),
            flash_message: msg,
        }),
{
}

// ---------------------------------------------------------------------------
// Request guards
// ---------------------------------------------------------------------------
/// The outcome of a request guard.
#[derive(Debug, Clone)]
pub enum GuardOutcome<T> {
    Success(T),
    Forward,
}

/// A request guard succeeds exactly when the authorization cookie was present
/// and its contents could be restored.
pub fn guard_outcome<T>(restored: Option<T>) -> (r: GuardOutcome<T>)
    ensures
        match restored {
            Some(c) => r == GuardOutcome::Success(c),
            None => r == GuardOutcome::<T>::Forward,
        },
{
    match restored {
        Some(c) => GuardOutcome::Success(c),
        None => GuardOutcome::Forward,
    }
}

impl<T> AuthCont<T> {
    /// The request guard for `AuthCont`: `restored` is the cookie data read
    /// back from the authorization cookie (`None` when the cookie is missing
    /// or unreadable).
    pub fn from_restored(restored: Option<T>) -> (r: GuardOutcome<AuthCont<T>>)
        ensures
            match restored {
                Some(c) => r == GuardOutcome::Success(AuthCont { cookie: c }),
                None => r == GuardOutcome::<AuthCont<T>>::Forward,
            },
    {
        match restored {
            Some(c) => GuardOutcome::Success(AuthCont { cookie: c }),
            None => GuardOutcome::Forward,
        }
    }
}

} // verus!
