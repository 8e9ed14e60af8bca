//! The search API's own values: identifiers, queries and the auth headers.
use crate::cookie::{pairs_view, Cookie};
use crate::text::push_str;
use vstd::prelude::*;

verus! {

/// Milliseconds from the Unix epoch to the epoch of the identifiers.
pub const ID_EPOCH_MS: i64 = 1288834974657;

pub open spec fn is_digit(c: char) -> bool {
    48 <= c as u32 && c as u32 <= 57
}

pub open spec fn digit_value(c: char) -> int {
    c as u32 - 48
}

/// The number that a string of decimal digits spells.
pub open spec fn digits_value(s: Seq<char>) -> int
    decreases s.len(),
{
    if s.len() == 0 {
        0
    } else {
        digits_value(s.drop_last()) * 10 + digit_value(s.last())
    }
}

pub open spec fn all_digits(b: Seq<char>) -> bool {
    forall|i: int| 0 <= i < b.len() ==> is_digit(#[trigger] b[i])
}

pub open spec fn is_negative(s: Seq<char>) -> bool {
    s.len() > 0 && s[0] == '-'
}

/// `s` without its leading sign, if it has one.
pub open spec fn digits_part(s: Seq<char>) -> Seq<char> {
    if s.len() > 0 && (s[0] == '-' || s[0] == '+') {
        s.drop_first()
    } else {
        s
    }
}

/// What `i64::from_str` accepts: an optional sign, then one or more decimal
/// digits, spelling a value that fits in 64 bits.
pub open spec fn parse_i64(s: Seq<char>) -> Option<i64> {
    let b = digits_part(s);
    let v = if is_negative(s) {
        -digits_value(b)
    } else {
        digits_value(b)
    };
    if b.len() == 0 || !all_digits(b) {
        None
    } else if i64::MIN <= v && v <= i64::MAX {
        Some(v as i64)
    } else {
        None
    }
}

/// The creation instant, in milliseconds since the Unix epoch, that an
/// identifier's high bits encode.
pub open spec fn id_instant(id: i64) -> int {
    (id >> 22) + ID_EPOCH_MS
}

proof fn lemma_digits_prefix(s: Seq<char>, i: int)
    requires
        0 <= i <= s.len(),
        forall|k: int| 0 <= k < s.len() ==> is_digit(#[trigger] s[k]),
    ensures
        digits_value(s) >= digits_value(s.take(i)) >= 0,
    decreases s.len(),
{
    if s.len() > 0 {
        if i == s.len() {
            assert(s.take(i) =~= s);
            lemma_digits_prefix(s.drop_last(), 0);
        } else {
            assert(s.drop_last().take(i) =~= s.take(i));
            lemma_digits_prefix(s.drop_last(), i);
        }
        assert(is_digit(s.last()));
    } else {
        assert(s.take(i) =~= s);
    }
}

/// A numeric identifier whose high bits encode when it was made.
#[derive(Debug, Clone)]
pub struct TweetID(pub String);

/// An identifier that is not a 64-bit decimal integer.
#[derive(Debug, Clone, Copy, PartialEq, Eq)]
pub struct ParseIdError;

/// Reads a signed 64-bit decimal integer as `i64::from_str` does.
pub fn parse_i64_str(s: &str) -> (r: Option<i64>)
    ensures
        r == parse_i64(s@),
{
    let n = s.unicode_len();
    let neg = n > 0 && s.get_char(0) == '-';
    let start: usize = if n > 0 && (s.get_char(0) == '-' || s.get_char(0) == '+') {
        1
    } else {
        0
    };
    let ghost body = s@.skip(start as int);
    proof {
        if start == 0 {
            assert(body =~= s@);
        } else {
            assert(body =~= s@.drop_first());
        }
    }
    if start == n {
        return None;
    }
    // magnitude allowed: 2^63 for a negative value, 2^63 - 1 otherwise
    let limit: u64 = if neg {
        9223372036854775808
    } else {
        9223372036854775807
    };
    let mut mag: u64 = 0;
    let mut i: usize = start;
    while i < n
        invariant
            n == s@.len(),
            start <= i <= n,
            body == s@.skip(start as int),
            body.len() > 0,
            neg == is_negative(s@),
            body == digits_part(s@),
            limit == (if neg {
                9223372036854775808u64
            } else {
                9223372036854775807u64
            }),
            mag as int == digits_value(body.take(i - start)),
            mag <= limit,
            forall|k: int| 0 <= k < i - start ==> is_digit(#[trigger] body[k]),
        decreases n - i,
    {
        let c = s.get_char(i);
        proof {
            assert(body[i - start] == c);
            assert(body.take(i - start + 1).drop_last() =~= body.take(i - start));
        }
        let cu = c as u32;
        if !(48 <= cu && cu <= 57) {
            proof {
                assert(!is_digit(body[i - start]));
                assert(!all_digits(body));
            }
            return None;
        }
        let d = (cu - 48) as u64;
        assert(d <= 9);
        if mag > (limit - d) / 10 {
            proof {
                let j = i - start + 1;
                assert(digits_value(body.take(j)) == mag * 10 + d);
                assert(mag * 10 + d > limit) by (nonlinear_arith)
                    requires
                        mag > (limit - d) / 10,
                        d <= 9,
                        limit >= 9,
                ;
                if all_digits(body) {
                    lemma_digits_prefix(body, j);
                    assert(digits_value(body) > limit);
                    if neg {
                        assert(-digits_value(body) < i64::MIN);
                    }
                }
            }
            return None;
        }
        assert(mag * 10 + d <= limit) by (nonlinear_arith)
            requires
                mag <= (limit - d) / 10,
                d <= 9,
                limit >= 9,
        ;
        mag = mag * 10 + d;
        i = i + 1;
    }
    proof {
        assert(body.take(n - start) =~= body);
    }
    if neg {
        if mag == 9223372036854775808 {
            Some(i64::MIN)
        } else {
            Some(-(mag as i64))
        }
    } else {
        Some(mag as i64)
    }
}

impl TweetID {
    /// The creation instant, in milliseconds since the Unix epoch.
    pub fn datetime(&self) -> (r: Result<i64, ParseIdError>)
        ensures
            match parse_i64(self.0@) {
                Some(id) => r == Ok::<i64, ParseIdError>(id_instant(id) as i64),
                None => r == Err::<i64, ParseIdError>(ParseIdError),
            },
    {
        match parse_i64_str(self.0.as_str()) {
            Some(id) => {
                let high = id >> 22u32;
                assert(-0x200_0000_0000 <= id >> 22u32 <= 0x1ff_ffff_ffff) by (bit_vector);
                Ok(high + ID_EPOCH_MS)
            },
            None => Err(ParseIdError),
        }
    }
}

} // verus!

verus! {

/// A search: free text with optional `since:` and `until:` dates.
#[derive(Debug, Clone)]
pub struct Query {
    pub since: Option<String>,
    pub until: Option<String>,
    pub text: String,
}

pub open spec fn bound_part(key: Seq<char>, d: Option<String>) -> Seq<char> {
    match d {
        Some(d) => " "@ + key + d@,
        None => Seq::empty(),
    }
}

impl Query {
    /// `<text> since:<date> until:<date>`, an absent bound left out.
    pub open spec fn spec_to_string(&self) -> Seq<char> {
        self.text@ + bound_part("since:"@, self.since) + bound_part("until:"@, self.until)
    }

    /// The query text sent to the API.
    pub fn to_string(&self) -> (r: String)
        ensures
            r@ == self.spec_to_string(),
    {
        let mut q = String::new();
        push_str(&mut q, self.text.as_str());
        if let Some(d) = &self.since {
            push_str(&mut q, " ");
            push_str(&mut q, "since:");
            push_str(&mut q, d.as_str());
        }
        if let Some(d) = &self.until {
            push_str(&mut q, " ");
            push_str(&mut q, "until:");
            push_str(&mut q, d.as_str());
        }
        proof {
            assert(q@ =~= self.spec_to_string());
        }
        q
    }
}

/// A value that cannot stand in an HTTP header.
#[derive(Debug, Clone, Copy, PartialEq, Eq)]
pub struct InvalidHeaderValue;

/// A character that a header value may hold: tab, or anything from space on
/// but DEL (a character past ASCII is sent as its UTF-8 bytes, all allowed).
pub open spec fn header_char_ok(c: char) -> bool {
    (c as u32 >= 32 && c as u32 != 127) || c as u32 == 9
}

pub open spec fn header_value_ok(s: Seq<char>) -> bool {
    forall|i: int| 0 <= i < s.len() ==> header_char_ok(#[trigger] s[i])
}

/// Whether `s` can stand as an HTTP header value.
pub fn is_header_value(s: &str) -> (r: bool)
    ensures
        r == header_value_ok(s@),
{
    let n = s.unicode_len();
    let mut i: usize = 0;
    while i < n
        invariant
            n == s@.len(),
            i <= n,
            forall|k: int| 0 <= k < i ==> header_char_ok(#[trigger] s@[k]),
        decreases n - i,
    {
        let u = s.get_char(i) as u32;
        if !((u >= 32 && u != 127) || u == 9) {
            return false;
        }
        i = i + 1;
    }
    true
}

/// Everything a request needs to authenticate.
#[derive(Debug, Clone)]
pub struct Auth {
    pub authorization_token: String,
    pub csrf_token: String,
    pub cookie: Cookie,
}

pub open spec fn header_view(h: Seq<(String, String)>) -> Seq<(Seq<char>, Seq<char>)> {
    h.map_values(|p: (String, String)| (p.0@, p.1@))
}

impl Auth {
    /// The three headers, in order: the bearer authorization, the csrf token
    /// and the cookie.
    pub open spec fn spec_headers(&self) -> Seq<(Seq<char>, Seq<char>)> {
        seq![
            ("authorization"@, "Bearer "@ + self.authorization_token@),
            ("x-csrf-token"@, self.csrf_token@),
            ("cookie"@, self.cookie.spec_to_string()),
        ]
    }

    pub open spec fn headers_ok(&self) -> bool {
        forall|i: int| 0 <= i < 3 ==> header_value_ok(#[trigger] self.spec_headers()[i].1)
    }

    /// The headers every request carries, as name and value; an error when
    /// one of the values holds a character that a header cannot.
    pub fn headers(&self) -> (r: Result<Vec<(String, String)>, InvalidHeaderValue>)
        ensures
            self.headers_ok() ==> (r matches Ok(h) && header_view(h@) == self.spec_headers()),
            !self.headers_ok() ==> r == Err::<Vec<(String, String)>, InvalidHeaderValue>(
                InvalidHeaderValue,
            ),
    {
        let mut bearer = String::new();
        push_str(&mut bearer, "Bearer ");
        push_str(&mut bearer, self.authorization_token.as_str());
        let csrf = self.csrf_token.clone();
        let cookie = self.cookie.to_string();
        let ok = is_header_value(bearer.as_str()) && is_header_value(csrf.as_str())
            && is_header_value(cookie.as_str());
        proof {
            assert(bearer@ =~= "Bearer "@ + self.authorization_token@);
            let hs = self.spec_headers();
            assert(hs[0].1 == bearer@ && hs[1].1 == csrf@ && hs[2].1 == cookie@);
        }
        if !ok {
            return Err(InvalidHeaderValue);
        }
        let mut h: Vec<(String, String)> = Vec::new();
        h.push((crate::text::copy_str("authorization"), bearer));
        h.push((crate::text::copy_str("x-csrf-token"), csrf));
        h.push((crate::text::copy_str("cookie"), cookie));
        proof {
            assert(header_view(h@) =~= self.spec_headers());
        }
        Ok(h)
    }
}

} // verus!

verus! {

/// An author, as the page's user map holds it; `extra` keeps every other
/// field by name, with its JSON text.
#[derive(Debug)]
pub struct User {
    pub id: u64,
    pub id_str: String,
    pub name: String,
    pub screen_name: String,
    pub extra: Vec<(String, String)>,
}

/// A decoded search result.
#[derive(Debug)]
pub struct Tweet {
    pub id: String,
    /// Milliseconds since the Unix epoch.
    pub created_at: Option<i64>,
    pub full_text: String,
    pub user_id: String,
    pub extra: Vec<(String, String)>,
    pub user: Option<User>,
}

impl User {
    /// Same field values.
    pub open spec fn same(&self, o: &User) -> bool {
        self.id == o.id && self.id_str@ == o.id_str@ && self.name@ == o.name@
            && self.screen_name@ == o.screen_name@ && pairs_view(self.extra@) == pairs_view(
            o.extra@,
        )
    }

    pub fn copy(&self) -> (r: User)
        ensures
            r.same(self),
    {
        User {
            id: self.id,
            id_str: self.id_str.clone(),
            name: self.name.clone(),
            screen_name: self.screen_name.clone(),
            extra: copy_pairs(&self.extra),
        }
    }
}

pub fn copy_pairs(v: &Vec<(String, String)>) -> (r: Vec<(String, String)>)
    ensures
        pairs_view(r@) == pairs_view(v@),
{
    let mut r: Vec<(String, String)> = Vec::new();
    let mut i: usize = 0;
    while i < v.len()
        invariant
            i <= v@.len(),
            r@.len() == i,
            forall|k: int| 0 <= k < i ==> r@[k].0@ == v@[k].0@ && r@[k].1@ == v@[k].1@,
        decreases v@.len() - i,
    {
        let a = v[i].0.clone();
        let b = v[i].1.clone();
        r.push((a, b));
        proof {
            assert(r@[i as int].0@ == v@[i as int].0@ && r@[i as int].1@ == v@[i as int].1@);
        }
        i = i + 1;
    }
    proof {
        assert(pairs_view(r@) =~= pairs_view(v@));
    }
    r
}

} // verus!
