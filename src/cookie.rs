//! The session cookie: parsing a raw `Cookie` header and writing it back.
use crate::text::{copy_str, find_char, index_of, push_str, str_eq, trim, trim_text};
use vstd::prelude::*;

verus! {

/// The three cookie values the API asks for.
#[derive(Debug, Clone)]
pub struct Cookie {
    pub auth_token: String,
    pub twitter_sess: String,
    pub ct0: String,
}

/// A required cookie key that the header does not hold.
#[derive(Debug, Clone, Copy, PartialEq, Eq)]
pub enum CookieError {
    AuthTokenMissing,
    TwitterSessMissing,
    Ct0Missing,
}

/// `s` cut at every `sep`, as `str::split` does: `n` separators give
/// `n + 1` pieces, empty ones included.
pub open spec fn split(s: Seq<char>, sep: char) -> Seq<Seq<char>>
    decreases s.len(),
{
    if s.len() == 0 {
        seq![Seq::<char>::empty()]
    } else {
        let r = split(s.drop_last(), sep);
        if s.last() == sep {
            r.push(Seq::<char>::empty())
        } else {
            r.update(r.len() - 1, r.last().push(s.last()))
        }
    }
}

pub proof fn lemma_split_nonempty(s: Seq<char>, sep: char)
    ensures
        split(s, sep).len() >= 1,
    decreases s.len(),
{
    if s.len() > 0 {
        lemma_split_nonempty(s.drop_last(), sep);
    }
}

/// The `key=value` pair of one trimmed piece: the text before the first `=`
/// and the text after it up to the next `=`; none without an `=`.
pub open spec fn pair_of(t: Seq<char>) -> Option<(Seq<char>, Seq<char>)> {
    let k = index_of(t, '=');
    if k == t.len() {
        None
    } else {
        let rest = t.skip(k + 1);
        Some((t.take(k), rest.take(index_of(rest, '='))))
    }
}

/// The pairs of the pieces, in order, skipping pieces without an `=`.
pub open spec fn pairs_of(pieces: Seq<Seq<char>>) -> Seq<(Seq<char>, Seq<char>)>
    decreases pieces.len(),
{
    if pieces.len() == 0 {
        Seq::empty()
    } else {
        let r = pairs_of(pieces.drop_last());
        match pair_of(trim(pieces.last())) {
            Some(p) => r.push(p),
            None => r,
        }
    }
}

/// The pairs of a raw cookie header `k1=v1; k2=v2; ...`.
pub open spec fn cookie_pairs(s: Seq<char>) -> Seq<(Seq<char>, Seq<char>)> {
    pairs_of(split(s, ';'))
}

/// The value of the last pair with key `k`, as a map filled in order keeps it.
pub open spec fn lookup(ps: Seq<(Seq<char>, Seq<char>)>, k: Seq<char>) -> Option<Seq<char>>
    decreases ps.len(),
{
    if ps.len() == 0 {
        None
    } else if ps.last().0 == k {
        Some(ps.last().1)
    } else {
        lookup(ps.drop_last(), k)
    }
}

pub open spec fn pairs_view(v: Seq<(String, String)>) -> Seq<(Seq<char>, Seq<char>)> {
    v.map_values(|p: (String, String)| (p.0@, p.1@))
}

/// The first of the three required keys that `s` lacks, in the order
/// `auth_token`, `_twitter_sess`, `ct0`.
pub open spec fn missing_key(s: Seq<char>) -> Option<CookieError> {
    let ps = cookie_pairs(s);
    if lookup(ps, "auth_token"@) is None {
        Some(CookieError::AuthTokenMissing)
    } else if lookup(ps, "_twitter_sess"@) is None {
        Some(CookieError::TwitterSessMissing)
    } else if lookup(ps, "ct0"@) is None {
        Some(CookieError::Ct0Missing)
    } else {
        None
    }
}

fn piece_pair(piece: &str) -> (r: Option<(String, String)>)
    ensures
        match pair_of(trim(piece@)) {
            Some(p) => r matches Some(x) && x.0@ == p.0 && x.1@ == p.1,
            None => r is None,
        },
{
    let t = trim_text(piece);
    let ts = t.as_str();
    let n = ts.unicode_len();
    let k = find_char(ts, '=', 0);
    proof {
        assert(ts@.skip(0) =~= ts@);
    }
    if k == n {
        return None;
    }
    let key = copy_str(ts.substring_char(0, k));
    let v = find_char(ts, '=', k + 1);
    let value = copy_str(ts.substring_char(k + 1, v));
    proof {
        let rest = ts@.skip(k + 1);
        assert(ts@.take(k as int) =~= ts@.subrange(0, k as int));
        assert(rest.take(index_of(rest, '=')) =~= ts@.subrange(k + 1, v as int));
    }
    Some((key, value))
}

/// Splits a raw cookie header into its `key=value` pairs, in order.
pub fn cookie_map(s: &str) -> (r: Vec<(String, String)>)
    ensures
        pairs_view(r@) == cookie_pairs(s@),
{
    let n = s.unicode_len();
    let mut out: Vec<(String, String)> = Vec::new();
    let mut start: usize = 0;
    let mut i: usize = 0;
    proof {
        assert(s@.take(0) =~= Seq::<char>::empty());
        assert(pairs_view(out@) =~= Seq::empty());
    }
    while i < n
        invariant
            n == s@.len(),
            start <= i <= n,
            split(s@.take(i as int), ';').len() >= 1,
            split(s@.take(i as int), ';').last() == s@.subrange(start as int, i as int),
            pairs_view(out@) == pairs_of(split(s@.take(i as int), ';').drop_last()),
        decreases n - i,
    {
        let ghost p = s@.take(i as int);
        let ghost q = s@.take(i + 1);
        proof {
            assert(q.drop_last() =~= p);
            assert(q.last() == s@[i as int]);
            lemma_split_nonempty(p, ';');
        }
        if s.get_char(i) == ';' {
            let piece = s.substring_char(start, i);
            let pp = piece_pair(piece);
            if let Some(x) = pp {
                out.push(x);
            }
            proof {
                assert(split(q, ';').drop_last() =~= split(p, ';'));
                assert(split(p, ';') =~= split(p, ';').drop_last().push(split(p, ';').last()));
                assert(pairs_view(out@) =~= pairs_of(split(q, ';').drop_last()));
                assert(s@.subrange(i + 1, i + 1) =~= Seq::<char>::empty());
            }
            start = i + 1;
        } else {
            proof {
                assert(split(q, ';').drop_last() =~= split(p, ';').drop_last());
                assert(s@.subrange(start as int, i + 1) =~= s@.subrange(start as int, i as int).push(
                    s@[i as int],
                ));
            }
        }
        i = i + 1;
    }
    let piece = s.substring_char(start, n);
    let pp = piece_pair(piece);
    if let Some(x) = pp {
        out.push(x);
    }
    proof {
        let sp = split(s@, ';');
        assert(s@.take(n as int) =~= s@);
        assert(sp =~= sp.drop_last().push(sp.last()));
        assert(pairs_view(out@) =~= pairs_of(sp));
    }
    out
}

} // verus!

verus! {

fn find_value(ps: &Vec<(String, String)>, k: &str) -> (r: Option<String>)
    ensures
        match lookup(pairs_view(ps@), k@) {
            Some(v) => r matches Some(x) && x@ == v,
            None => r is None,
        },
{
    let mut i: usize = ps.len();
    assert(ps@.take(i as int) =~= ps@);
    while i > 0
        invariant
            i <= ps@.len(),
            lookup(pairs_view(ps@), k@) == lookup(pairs_view(ps@.take(i as int)), k@),
        decreases i,
    {
        proof {
            assert(pairs_view(ps@.take(i as int)).drop_last() =~= pairs_view(ps@.take(i - 1)));
        }
        if str_eq(ps[i - 1].0.as_str(), k) {
            return Some(ps[i - 1].1.clone());
        }
        i = i - 1;
    }
    None
}

impl Cookie {
    /// Reads the three required values out of a raw cookie header; where a
    /// key occurs twice the later value counts, and unknown keys are ignored.
    pub fn from_str(s: &str) -> (r: Result<Cookie, CookieError>)
        ensures
            match missing_key(s@) {
                Some(e) => r == Err::<Cookie, CookieError>(e),
                None => r matches Ok(c) && lookup(cookie_pairs(s@), "auth_token"@) == Some(
                    c.auth_token@,
                ) && lookup(cookie_pairs(s@), "_twitter_sess"@) == Some(c.twitter_sess@)
                    && lookup(cookie_pairs(s@), "ct0"@) == Some(c.ct0@),
            },
    {
        let map = cookie_map(s);
        let auth_token = match find_value(&map, "auth_token") {
            Some(v) => v,
            None => return Err(CookieError::AuthTokenMissing),
        };
        let twitter_sess = match find_value(&map, "_twitter_sess") {
            Some(v) => v,
            None => return Err(CookieError::TwitterSessMissing),
        };
        let ct0 = match find_value(&map, "ct0") {
            Some(v) => v,
            None => return Err(CookieError::Ct0Missing),
        };
        Ok(Cookie { auth_token, twitter_sess, ct0 })
    }

    /// The header form `auth_token=<a>; _twitter_sess=<s>; ct0=<c>`.
    pub open spec fn spec_to_string(&self) -> Seq<char> {
        "auth_token="@ + self.auth_token@ + "; _twitter_sess="@ + self.twitter_sess@ + "; ct0="@
            + self.ct0@
    }

    /// Writes the cookie back in header form, keys in a fixed order.
    pub fn to_string(&self) -> (r: String)
        ensures
            r@ == self.spec_to_string(),
    {
        let mut r = String::new();
        push_str(&mut r, "auth_token=");
        push_str(&mut r, self.auth_token.as_str());
        push_str(&mut r, "; _twitter_sess=");
        push_str(&mut r, self.twitter_sess.as_str());
        push_str(&mut r, "; ct0=");
        push_str(&mut r, self.ct0.as_str());
        proof {
            assert(r@ =~= self.spec_to_string());
        }
        r
    }
}

} // verus!

verus! {

/// A cookie value that survives the header form: no `;` or `=` in it, and no
/// white space at its end.
pub open spec fn plain_value(v: Seq<char>) -> bool {
    &&& forall|i: int| 0 <= i < v.len() ==> #[trigger] v[i] != ';' && v[i] != '='
    &&& v.len() > 0 ==> !crate::text::is_space(v.last())
}

pub open spec fn free_of(x: Seq<char>, c: char) -> bool {
    forall|i: int| 0 <= i < x.len() ==> #[trigger] x[i] != c
}

proof fn lemma_split_single(x: Seq<char>, sep: char)
    requires
        free_of(x, sep),
    ensures
        split(x, sep) == seq![x],
    decreases x.len(),
{
    if x.len() == 0 {
        assert(x =~= Seq::<char>::empty());
    } else {
        assert(free_of(x.drop_last(), sep)) by {
            assert forall|i: int| 0 <= i < x.drop_last().len() implies #[trigger] x.drop_last()[i]
                != sep by {
                assert(x.drop_last()[i] == x[i]);
            }
        }
        lemma_split_single(x.drop_last(), sep);
        assert(x[x.len() - 1] != sep);
        let r = split(x.drop_last(), sep);
        assert(r.last() == x.drop_last());
        assert(x.drop_last().push(x.last()) =~= x);
        assert(split(x, sep) == r.update(0, x.drop_last().push(x.last())));
        assert(split(x, sep) =~= seq![x]);
    }
}

proof fn lemma_split_join(x: Seq<char>, y: Seq<char>, sep: char)
    ensures
        split(x + seq![sep] + y, sep) == split(x, sep) + split(y, sep),
    decreases y.len(),
{
    let s = x + seq![sep] + y;
    if y.len() == 0 {
        assert(s.drop_last() =~= x);
        assert(split(s, sep) =~= split(x, sep) + split(y, sep));
    } else {
        lemma_split_join(x, y.drop_last(), sep);
        lemma_split_nonempty(y.drop_last(), sep);
        assert(s.drop_last() =~= x + seq![sep] + y.drop_last());
        assert(s.last() == y.last());
        assert(split(s, sep) =~= split(x, sep) + split(y, sep));
    }
}

proof fn lemma_index_of_join(x: Seq<char>, y: Seq<char>, c: char)
    requires
        free_of(x, c),
    ensures
        index_of(x + y, c) == x.len() + index_of(y, c),
    decreases x.len(),
{
    if x.len() == 0 {
        assert(x + y =~= y);
    } else {
        assert((x + y).drop_first() =~= x.drop_first() + y);
        lemma_index_of_join(x.drop_first(), y, c);
    }
}

proof fn lemma_pair_of(k: Seq<char>, v: Seq<char>)
    requires
        free_of(k, '='),
        plain_value(v),
    ensures
        pair_of(k.push('=') + v) == Some((k, v)),
{
    let t = k.push('=') + v;
    lemma_index_of_join(k, seq!['='] + v, '=');
    assert(k + (seq!['='] + v) =~= t);
    lemma_index_of_join(v, Seq::<char>::empty(), '=');
    assert(v + Seq::<char>::empty() =~= v);
    assert(t.take(k.len() as int) =~= k);
    assert(t.skip(k.len() as int + 1) =~= v);
    assert(v.take(v.len() as int) =~= v);
}

proof fn lemma_trim_plain(t: Seq<char>, lead: int)
    requires
        0 <= lead < t.len(),
        forall|i: int| 0 <= i < lead ==> crate::text::is_space(#[trigger] t[i]),
        !crate::text::is_space(t[lead]),
        !crate::text::is_space(t.last()),
    ensures
        trim(t) == t.skip(lead),
    decreases lead,
{
    if lead == 0 {
        assert(t.skip(0) =~= t);
    } else {
        assert forall|i: int| 0 <= i < lead - 1 implies crate::text::is_space(
            #[trigger] t.drop_first()[i],
        ) by {
            assert(t.drop_first()[i] == t[i + 1]);
        }
        lemma_trim_plain(t.drop_first(), lead - 1);
        assert(t.drop_first().skip(lead - 1) =~= t.skip(lead));
    }
}

} // verus!

verus! {

proof fn lemma_free_join(x: Seq<char>, y: Seq<char>, c: char)
    requires
        free_of(x, c),
        free_of(y, c),
    ensures
        free_of(x + y, c),
{
    assert forall|i: int| 0 <= i < (x + y).len() implies #[trigger] (x + y)[i] != c by {
        if i < x.len() {
            assert((x + y)[i] == x[i]);
        } else {
            assert((x + y)[i] == y[i - x.len()]);
        }
    }
}

/// Reading back the header form of a cookie gives its three values, as long
/// as none of them holds `;` or `=` or ends in white space.
pub proof fn lemma_cookie_round_trip(c: Cookie)
    requires
        plain_value(c.auth_token@),
        plain_value(c.twitter_sess@),
        plain_value(c.ct0@),
    ensures
        missing_key(c.spec_to_string()) is None,
        lookup(cookie_pairs(c.spec_to_string()), "auth_token"@) == Some(c.auth_token@),
        lookup(cookie_pairs(c.spec_to_string()), "_twitter_sess"@) == Some(c.twitter_sess@),
        lookup(cookie_pairs(c.spec_to_string()), "ct0"@) == Some(c.ct0@),
{
    reveal_strlit("auth_token=");
    reveal_strlit("; _twitter_sess=");
    reveal_strlit("; ct0=");
    reveal_strlit("auth_token");
    reveal_strlit("_twitter_sess");
    reveal_strlit("ct0");
    let a = c.auth_token@;
    let b = c.twitter_sess@;
    let d = c.ct0@;
    let ka = "auth_token"@;
    let kb = "_twitter_sess"@;
    let kc = "ct0"@;
    assert(ka =~= seq!['a', 'u', 't', 'h', '_', 't', 'o', 'k', 'e', 'n']);
    assert(kb =~= seq!['_', 't', 'w', 'i', 't', 't', 'e', 'r', '_', 's', 'e', 's', 's']);
    assert(kc =~= seq!['c', 't', '0']);
    let sp = seq![' '];
    let eq = seq!['='];
    let p1 = ka + eq + a;
    let q2 = kb + eq + b;
    let q3 = kc + eq + d;
    let p2 = sp + q2;
    let p3 = sp + q3;
    let s = c.spec_to_string();
    assert(s =~= p1 + seq![';'] + (p2 + seq![';'] + p3));
    // none of the pieces holds a separator
    assert(free_of(ka, ';') && free_of(kb, ';') && free_of(kc, ';'));
    assert(free_of(ka, '=') && free_of(kb, '=') && free_of(kc, '='));
    assert(free_of(eq, ';') && free_of(sp, ';'));
    assert(free_of(a, ';') && free_of(b, ';') && free_of(d, ';'));
    lemma_free_join(ka, eq, ';');
    lemma_free_join(ka + eq, a, ';');
    lemma_free_join(kb, eq, ';');
    lemma_free_join(kb + eq, b, ';');
    lemma_free_join(sp, q2, ';');
    lemma_free_join(kc, eq, ';');
    lemma_free_join(kc + eq, d, ';');
    lemma_free_join(sp, q3, ';');
    lemma_split_single(p1, ';');
    lemma_split_single(p2, ';');
    lemma_split_single(p3, ';');
    lemma_split_join(p2, p3, ';');
    lemma_split_join(p1, p2 + seq![';'] + p3, ';');
    let pieces = seq![p1, p2, p3];
    assert(split(s, ';') =~= pieces);
    // each piece trims to `key=value`
    lemma_trim_plain(p1, 0);
    assert(p1.skip(0) =~= p1);
    lemma_trim_plain(p2, 1);
    assert(p2.skip(1) =~= q2);
    lemma_trim_plain(p3, 1);
    assert(p3.skip(1) =~= q3);
    assert(ka + eq =~= ka.push('='));
    assert(kb + eq =~= kb.push('='));
    assert(kc + eq =~= kc.push('='));
    lemma_pair_of(ka, a);
    lemma_pair_of(kb, b);
    lemma_pair_of(kc, d);
    assert(pieces.drop_last() =~= seq![p1, p2]);
    assert(seq![p1, p2].drop_last() =~= seq![p1]);
    assert(seq![p1].drop_last() =~= Seq::<Seq<char>>::empty());
    assert(p1 == ka.push('=') + a);
    assert(q2 == kb.push('=') + b);
    assert(q3 == kc.push('=') + d);
    assert(trim(p1) == p1);
    assert(trim(p2) == q2);
    assert(trim(p3) == q3);
    assert(pair_of(trim(p1)) == Some((ka, a)));
    assert(pair_of(trim(p2)) == Some((kb, b)));
    assert(pair_of(trim(p3)) == Some((kc, d)));
    assert(pairs_of(Seq::<Seq<char>>::empty()) =~= Seq::empty());
    assert(pairs_of(seq![p1]) =~= seq![(ka, a)]);
    assert(pairs_of(seq![p1, p2]) =~= seq![(ka, a), (kb, b)]);
    assert(pairs_of(pieces) =~= seq![(ka, a), (kb, b), (kc, d)]);
    let ps = cookie_pairs(s);
    assert(ps =~= seq![(ka, a), (kb, b), (kc, d)]);
    assert(seq![(ka, a), (kb, b), (kc, d)].drop_last() =~= seq![(ka, a), (kb, b)]);
    assert(seq![(ka, a), (kb, b)].drop_last() =~= seq![(ka, a)]);
    assert(ka.len() != kb.len() && ka.len() != kc.len() && kb.len() != kc.len());
    let l3 = seq![(ka, a), (kb, b), (kc, d)];
    let l2 = seq![(ka, a), (kb, b)];
    let l1 = seq![(ka, a)];
    assert(l1.drop_last() =~= Seq::<(Seq<char>, Seq<char>)>::empty());
    assert(lookup(l1, ka) == Some(a));
    assert(lookup(l2, ka) == Some(a));
    assert(lookup(l3, ka) == Some(a));
    assert(lookup(l2, kb) == Some(b));
    assert(lookup(l3, kb) == Some(b));
    assert(lookup(l3, kc) == Some(d));
}

} // verus!
