//! One page of search results as the API sends it, and its decoding.
use crate::cookie::pairs_view;
use crate::text::str_eq;
use crate::twitter::{id_instant, parse_i64, ParseIdError, Tweet, TweetID, User};
use vstd::prelude::*;

verus! {

/// The id of the entry that carries the cursor of the next page.
pub open spec fn bottom_cursor_id() -> Seq<char> {
    "sq-cursor-bottom"@
}

/// A tweet as the page's tweet map holds it.
#[derive(Debug)]
pub struct RawTweet {
    pub id_str: TweetID,
    pub full_text: String,
    pub user_id: u64,
    pub user_id_str: String,
    pub extra: Vec<(String, String)>,
}

/// A timeline entry: its id and, for a cursor entry, the cursor's value.
#[derive(Debug)]
pub struct Entry {
    pub entry_id: String,
    pub cursor: Option<String>,
}

/// A timeline instruction; only adding and replacing entries matter here.
#[derive(Debug)]
pub struct Instruction {
    pub add_entries: Option<Vec<Entry>>,
    pub replace_entry: Option<Entry>,
}

/// One page: the tweets, the users keyed by their id, and the instructions.
#[derive(Debug)]
pub struct RawResponse {
    pub tweets: Vec<RawTweet>,
    pub users: Vec<(String, User)>,
    pub instructions: Vec<Instruction>,
}

/// The entries an instruction names: those it adds, else the one it puts in
/// place of another.
pub open spec fn instruction_entries(i: Instruction) -> Seq<Entry> {
    match i.add_entries {
        Some(es) => es@,
        None => match i.replace_entry {
            Some(e) => seq![e],
            None => Seq::empty(),
        },
    }
}

pub open spec fn all_entries(ins: Seq<Instruction>) -> Seq<Entry>
    decreases ins.len(),
{
    if ins.len() == 0 {
        Seq::empty()
    } else {
        all_entries(ins.drop_last()) + instruction_entries(ins.last())
    }
}

pub open spec fn opt_view(o: Option<String>) -> Option<Seq<char>> {
    match o {
        Some(s) => Some(s@),
        None => None,
    }
}

/// The cursor of the first entry with the bottom cursor's id, if it has one.
pub open spec fn cursor_in(es: Seq<Entry>) -> Option<Seq<char>>
    decreases es.len(),
{
    if es.len() == 0 {
        None
    } else if es[0].entry_id@ == bottom_cursor_id() {
        opt_view(es[0].cursor)
    } else {
        cursor_in(es.drop_first())
    }
}

pub open spec fn has_bottom(es: Seq<Entry>) -> bool {
    exists|k: int| 0 <= k < es.len() && (#[trigger] es[k]).entry_id@ == bottom_cursor_id()
}

proof fn lemma_cursor_in_concat(a: Seq<Entry>, b: Seq<Entry>)
    ensures
        has_bottom(a) ==> cursor_in(a + b) == cursor_in(a),
        !has_bottom(a) ==> cursor_in(a + b) == cursor_in(b),
    decreases a.len(),
{
    if a.len() == 0 {
        assert(a + b =~= b);
    } else {
        assert((a + b).drop_first() =~= a.drop_first() + b);
        lemma_cursor_in_concat(a.drop_first(), b);
        if a[0].entry_id@ != bottom_cursor_id() {
            if has_bottom(a) {
                let k = choose|k: int| 0 <= k < a.len() && (#[trigger] a[k]).entry_id@
                    == bottom_cursor_id();
                assert(a.drop_first()[k - 1] == a[k]);
            }
            if has_bottom(a.drop_first()) {
                let k = choose|k: int| 0 <= k < a.len() - 1 && (#[trigger] a.drop_first()[k]).entry_id@
                    == bottom_cursor_id();
                assert(a[k + 1] == a.drop_first()[k]);
            }
        }
    }
}

/// Looks in `es` for the bottom cursor entry.
fn cursor_in_entries(es: &Vec<Entry>) -> (r: (bool, Option<String>))
    ensures
        r.0 == has_bottom(es@),
        r.0 ==> opt_view(r.1) == cursor_in(es@),
{
    let mut i: usize = 0;
    assert(es@.skip(0) =~= es@);
    while i < es.len()
        invariant
            i <= es@.len(),
            forall|k: int| 0 <= k < i ==> (#[trigger] es@[k]).entry_id@ != bottom_cursor_id(),
            cursor_in(es@) == cursor_in(es@.skip(i as int)),
        decreases es@.len() - i,
    {
        assert(es@.skip(i as int).drop_first() =~= es@.skip(i + 1));
        assert(es@.skip(i as int)[0] == es@[i as int]);
        if str_eq(es[i].entry_id.as_str(), "sq-cursor-bottom") {
            let c = match &es[i].cursor {
                Some(c) => Some(c.clone()),
                None => None,
            };
            return (true, c);
        }
        i = i + 1;
    }
    (false, None)
}

impl RawResponse {
    /// The cursor of the next page: that of the first entry, over all adding
    /// and replacing instructions in order, whose id is the bottom cursor's.
    pub fn next_cursor(&self) -> (r: Option<String>)
        ensures
            opt_view(r) == cursor_in(all_entries(self.instructions@)),
    {
        let ghost ins = self.instructions@;
        let mut i: usize = 0;
        while i < self.instructions.len()
            invariant
                ins == self.instructions@,
                i <= ins.len(),
                !has_bottom(all_entries(ins.take(i as int))),
            decreases ins.len() - i,
        {
            let ghost pre = all_entries(ins.take(i as int));
            proof {
                assert(ins.take(i + 1).drop_last() =~= ins.take(i as int));
            }
            let inst = &self.instructions[i];
            let found = match &inst.add_entries {
                Some(es) => cursor_in_entries(es),
                None => match &inst.replace_entry {
                    Some(e) => {
                        if str_eq(e.entry_id.as_str(), "sq-cursor-bottom") {
                            let c = match &e.cursor {
                                Some(c) => Some(c.clone()),
                                None => None,
                            };
                            proof {
                                let s1 = seq![*e];
                                assert(s1[0] == *e);
                                assert(s1.drop_first() =~= Seq::<Entry>::empty());
                            }
                            (true, c)
                        } else {
                            proof {
                                let s1 = seq![*e];
                                assert(s1[0] == *e);
                            }
                            (false, None)
                        }
                    },
                    None => (false, None),
                },
            };
            let ghost here = instruction_entries(ins[i as int]);
            proof {
                lemma_cursor_in_concat(pre, here);
                assert(all_entries(ins.take(i + 1)) == pre + here);
            }
            if found.0 {
                proof {
                    let rest = ins.skip(i + 1);
                    lemma_all_entries_concat(ins.take(i + 1), rest);
                    assert(ins.take(i + 1) + rest =~= ins);
                    lemma_cursor_in_concat(pre + here, all_entries(rest));
                    assert(has_bottom(pre + here)) by {
                        let k = choose|k: int| 0 <= k < here.len() && (#[trigger] here[k]).entry_id@
                            == bottom_cursor_id();
                        assert((pre + here)[pre.len() + k] == here[k]);
                    }
                }
                return found.1;
            }
            proof {
                if has_bottom(pre + here) {
                    let k = choose|k: int| 0 <= k < (pre + here).len() && (#[trigger] (pre
                        + here)[k]).entry_id@ == bottom_cursor_id();
                    if k < pre.len() {
                        assert(pre[k] == (pre + here)[k]);
                    } else {
                        assert(here[k - pre.len()] == (pre + here)[k]);
                    }
                }
            }
            i = i + 1;
        }
        proof {
            assert(ins.take(ins.len() as int) =~= ins);
            assert(cursor_in(all_entries(ins)) is None) by {
                lemma_no_bottom(all_entries(ins));
            }
        }
        None
    }
}

proof fn lemma_no_bottom(es: Seq<Entry>)
    requires
        !has_bottom(es),
    ensures
        cursor_in(es) is None,
    decreases es.len(),
{
    if es.len() > 0 {
        assert(es[0] == es[0]);
        if has_bottom(es.drop_first()) {
            let k = choose|k: int| 0 <= k < es.len() - 1 && (#[trigger] es.drop_first()[k]).entry_id@
                == bottom_cursor_id();
            assert(es[k + 1] == es.drop_first()[k]);
        }
        lemma_no_bottom(es.drop_first());
    }
}

proof fn lemma_all_entries_concat(a: Seq<Instruction>, b: Seq<Instruction>)
    ensures
        all_entries(a + b) == all_entries(a) + all_entries(b),
    decreases b.len(),
{
    if b.len() == 0 {
        assert(a + b =~= a);
        assert(all_entries(a) + all_entries(b) =~= all_entries(a));
    } else {
        assert((a + b).drop_last() =~= a + b.drop_last());
        lemma_all_entries_concat(a, b.drop_last());
        assert(all_entries(a + b) =~= all_entries(a) + all_entries(b));
    }
}

} // verus!

verus! {

/// Position of the last user keyed `k`, the one a map filled in order
/// keeps, or -1 when none is.
pub open spec fn user_index(us: Seq<(String, User)>, k: Seq<char>) -> int
    decreases us.len(),
{
    if us.len() == 0 {
        -1
    } else if us.last().0@ == k {
        us.len() - 1
    } else {
        user_index(us.drop_last(), k)
    }
}

proof fn lemma_user_index(us: Seq<(String, User)>, k: Seq<char>)
    ensures
        -1 <= user_index(us, k) < us.len(),
        user_index(us, k) >= 0 ==> us[user_index(us, k)].0@ == k,
        forall|j: int| user_index(us, k) < j < us.len() ==> (#[trigger] us[j]).0@ != k,
    decreases us.len(),
{
    if us.len() > 0 && us.last().0@ != k {
        lemma_user_index(us.drop_last(), k);
        assert forall|j: int| user_index(us, k) < j < us.len() implies (#[trigger] us[j]).0@
            != k by {
            if j < us.len() - 1 {
                assert(us[j] == us.drop_last()[j]);
            }
        }
    }
}

/// No two users of the page share a key, as in the map the page sends.
pub open spec fn users_unique(us: Seq<(String, User)>) -> bool {
    forall|i: int, j: int|
        0 <= i < j < us.len() ==> (#[trigger] us[i]).0@ != (#[trigger] us[j]).0@
}

impl RawResponse {
    /// The users are keyed as in a map: each key at most once.
    pub open spec fn wf(&self) -> bool {
        users_unique(self.users@)
    }
}

/// With keys that are unique, the user found for a key is the one entry
/// that has it.
pub proof fn lemma_unique_user(us: Seq<(String, User)>, j: int)
    requires
        users_unique(us),
        0 <= j < us.len(),
    ensures
        user_index(us, us[j].0@) == j,
{
    let k = us[j].0@;
    lemma_user_index(us, k);
    let x = user_index(us, k);
    if x != j {
        if x < j {
            assert(us[j].0@ != k);
        } else {
            assert(us[j].0@ != us[x].0@);
        }
    }
}

/// `t` is what decoding `raw` gives: its fields moved over, the creation
/// instant read from the identifier, and the author looked up by id.
pub open spec fn decoded_from(t: Tweet, raw: RawTweet, users: Seq<(String, User)>) -> bool {
    &&& t.id == raw.id_str.0
    &&& t.full_text == raw.full_text
    &&& t.user_id == raw.user_id_str
    &&& t.extra == raw.extra
    &&& parse_i64(raw.id_str.0@) matches Some(id) && t.created_at == Some(id_instant(id) as i64)
    &&& if user_index(users, raw.user_id_str@) >= 0 {
        t.user matches Some(u) && u.same(&users[user_index(users, raw.user_id_str@)].1)
    } else {
        t.user is None
    }
}

/// Every identifier in `ts` reads as a 64-bit integer.
pub open spec fn ids_parse(ts: Seq<RawTweet>) -> bool {
    forall|i: int| 0 <= i < ts.len() ==> (#[trigger] parse_i64(ts[i].id_str.0@)) is Some
}

fn find_user(users: &Vec<(String, User)>, k: &str) -> (r: Option<User>)
    ensures
        user_index(users@, k@) >= 0 ==> (r matches Some(u) && u.same(
            &users@[user_index(users@, k@)].1,
        )),
        user_index(users@, k@) < 0 ==> r is None,
{
    let mut i: usize = users.len();
    assert(users@.take(i as int) =~= users@);
    while i > 0
        invariant
            i <= users@.len(),
            user_index(users@, k@) == user_index(users@.take(i as int), k@),
        decreases i,
    {
        let ghost t = users@.take(i as int);
        assert(t.drop_last() =~= users@.take(i - 1));
        assert(t.last() == users@[i - 1]);
        if str_eq(users[i - 1].0.as_str(), k) {
            return Some(users[i - 1].1.copy());
        }
        i = i - 1;
    }
    None
}

/// Decodes the tweets of a page, in order; fails when an identifier is not a
/// 64-bit integer.
pub fn decode_tweets(tweets: Vec<RawTweet>, users: &Vec<(String, User)>) -> (r: Result<
    Vec<Tweet>,
    ParseIdError,
>)
    ensures
        ids_parse(tweets@) ==> (r matches Ok(v) && v@.len() == tweets@.len() && forall|i: int|
            0 <= i < v@.len() ==> decoded_from(#[trigger] v@[i], tweets@[i], users@)),
        !ids_parse(tweets@) ==> r == Err::<Vec<Tweet>, ParseIdError>(ParseIdError),
{
    let ghost orig = tweets@;
    let n = tweets.len();
    let mut rest = tweets;
    let mut out: Vec<Tweet> = Vec::new();
    let mut i: usize = 0;
    while rest.len() > 0
        invariant
            rest@ == orig.skip(i as int),
            orig == tweets@,
            n == orig.len(),
            i <= orig.len(),
            out@.len() == i,
            forall|k: int| 0 <= k < i ==> decoded_from(#[trigger] out@[k], orig[k], users@),
            forall|k: int| 0 <= k < i ==> (#[trigger] parse_i64(orig[k].id_str.0@)) is Some,
        decreases rest@.len(),
    {
        assert(rest@.len() == orig.len() - i);
        let raw = rest.remove(0);
        assert(raw == orig[i as int]);
        assert(rest@ =~= orig.skip(i + 1));
        let created_at = match raw.id_str.datetime() {
            Ok(ms) => ms,
            Err(e) => {
                proof {
                    assert(parse_i64(orig[i as int].id_str.0@) is None);
                    assert(!ids_parse(orig));
                }
                return Err(e);
            },
        };
        let user = find_user(users, raw.user_id_str.as_str());
        let RawTweet { id_str, full_text, user_id: _, user_id_str, extra } = raw;
        let t = Tweet {
            id: id_str.0,
            created_at: Some(created_at),
            full_text,
            user_id: user_id_str,
            extra,
            user,
        };
        proof {
            lemma_user_index(users@, orig[i as int].user_id_str@);
            assert(decoded_from(t, orig[i as int], users@));
        }
        out.push(t);
        assert(out@[i as int] == t);
        i = i + 1;
    }
    proof {
        assert(orig.skip(i as int).len() == 0);
    }
    Ok(out)
}

impl RawResponse {
    /// The page's tweets, decoded in the order the page lists them.
    pub fn into_tweets(self) -> (r: Result<Vec<Tweet>, ParseIdError>)
        ensures
            ids_parse(self.tweets@) ==> (r matches Ok(v) && v@.len() == self.tweets@.len()
                && forall|i: int|
                0 <= i < v@.len() ==> decoded_from(
                    #[trigger] v@[i],
                    self.tweets@[i],
                    self.users@,
                )),
            !ids_parse(self.tweets@) ==> r == Err::<Vec<Tweet>, ParseIdError>(ParseIdError),
    {
        let RawResponse { tweets, users, instructions: _ } = self;
        decode_tweets(tweets, &users)
    }
}

} // verus!
