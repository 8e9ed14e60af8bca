//! Caption records: ordering the tweets in time and placing each one on the
//! playback timeline.
use crate::clean::{cleaned, Cleaner};
use crate::twitter::Tweet;
use vstd::prelude::*;

verus! {

broadcast use vstd::seq_lib::group_to_multiset_ensures;

/// One timed comment of the track.
#[derive(Debug)]
pub struct Chat {
    /// Creation instant, in seconds since the Unix epoch.
    pub date: u64,
    /// Seconds after the first comment of the track.
    pub vpos: u64,
    pub user_id: Option<String>,
    pub id: Option<String>,
    pub mail: Option<String>,
    pub content: String,
}

/// A tweet's creation instant in milliseconds; an unknown one counts as the
/// Unix epoch.
pub open spec fn instant(t: Tweet) -> int {
    match t.created_at {
        Some(ms) => ms as int,
        None => 0,
    }
}

/// Whole seconds since the Unix epoch of an instant in milliseconds; an
/// instant before the epoch counts as the epoch.
pub open spec fn secs(ms: int) -> int {
    if ms > 0 {
        ms / 1000
    } else {
        0
    }
}

/// A tweet's creation instant in whole seconds.
pub open spec fn date_of(t: Tweet) -> int {
    secs(instant(t))
}

/// No tweet of `s` was made in an earlier second than the first one.
pub open spec fn none_before_first(s: Seq<Tweet>) -> bool {
    forall|i: int| 0 <= i < s.len() ==> date_of(s[0]) <= date_of(#[trigger] s[i])
}

pub open spec fn sorted(s: Seq<Tweet>) -> bool {
    forall|i: int, j: int| 0 <= i < j < s.len() ==> instant(#[trigger] s[i]) <= instant(
        #[trigger] s[j],
    )
}

/// `t` put into `s` after every tweet that is not later than it.
pub open spec fn insert_sorted(s: Seq<Tweet>, t: Tweet) -> Seq<Tweet>
    decreases s.len(),
{
    if s.len() == 0 {
        seq![t]
    } else if instant(s.last()) <= instant(t) {
        s.push(t)
    } else {
        insert_sorted(s.drop_last(), t).push(s.last())
    }
}

/// `s` ordered by creation instant, tweets of equal instants kept in the
/// order they came in.
pub open spec fn sort_stable(s: Seq<Tweet>) -> Seq<Tweet>
    decreases s.len(),
{
    if s.len() == 0 {
        Seq::empty()
    } else {
        insert_sorted(sort_stable(s.drop_last()), s.last())
    }
}

proof fn lemma_insert_at(s: Seq<Tweet>, t: Tweet, j: int)
    requires
        0 <= j <= s.len(),
        forall|k: int| j <= k < s.len() ==> instant(#[trigger] s[k]) > instant(t),
        j > 0 ==> instant(s[j - 1]) <= instant(t),
    ensures
        insert_sorted(s, t) == s.insert(j, t),
    decreases s.len() - j,
{
    if s.len() == 0 {
        assert(s.insert(j, t) =~= seq![t]);
    } else if j == s.len() {
        assert(s.insert(j, t) =~= s.push(t));
    } else {
        lemma_insert_at(s.drop_last(), t, j);
        assert(s.insert(j, t) =~= s.drop_last().insert(j, t).push(s.last()));
    }
}

proof fn lemma_insert_len_multiset(s: Seq<Tweet>, t: Tweet)
    ensures
        insert_sorted(s, t).len() == s.len() + 1,
        insert_sorted(s, t).to_multiset() == s.to_multiset().insert(t),
    decreases s.len(),
{
    if s.len() == 0 {
        assert(seq![t] =~= s.push(t));
    } else if instant(s.last()) <= instant(t) {
    } else {
        lemma_insert_len_multiset(s.drop_last(), t);
        assert(s =~= s.drop_last().push(s.last()));
        assert(insert_sorted(s, t).to_multiset() =~= s.to_multiset().insert(t));
    }
}

proof fn lemma_insert_bound(s: Seq<Tweet>, t: Tweet, b: int)
    requires
        forall|k: int| 0 <= k < s.len() ==> instant(#[trigger] s[k]) <= b,
        instant(t) <= b,
    ensures
        forall|k: int|
            0 <= k < insert_sorted(s, t).len() ==> instant(#[trigger] insert_sorted(s, t)[k]) <= b,
    decreases s.len(),
{
    lemma_insert_len_multiset(s, t);
    if s.len() > 0 && instant(s.last()) > instant(t) {
        lemma_insert_bound(s.drop_last(), t, b);
        lemma_insert_len_multiset(s.drop_last(), t);
    }
}

proof fn lemma_insert_sorted(s: Seq<Tweet>, t: Tweet)
    requires
        sorted(s),
    ensures
        sorted(insert_sorted(s, t)),
    decreases s.len(),
{
    lemma_insert_len_multiset(s, t);
    if s.len() > 0 && instant(s.last()) > instant(t) {
        let r = insert_sorted(s.drop_last(), t);
        lemma_insert_sorted(s.drop_last(), t);
        lemma_insert_len_multiset(s.drop_last(), t);
        lemma_insert_bound(s.drop_last(), t, instant(s.last()));
        assert(sorted(r.push(s.last())));
    }
}

/// Ordering keeps every tweet and puts them in non-decreasing order of
/// creation instant.
pub proof fn lemma_sort_stable(s: Seq<Tweet>)
    ensures
        sorted(sort_stable(s)),
        sort_stable(s).len() == s.len(),
        sort_stable(s).to_multiset() == s.to_multiset(),
    decreases s.len(),
{
    if s.len() > 0 {
        lemma_sort_stable(s.drop_last());
        lemma_insert_sorted(sort_stable(s.drop_last()), s.last());
        lemma_insert_len_multiset(sort_stable(s.drop_last()), s.last());
        assert(s =~= s.drop_last().push(s.last()));
    }
}

fn instant_of(t: &Tweet) -> (r: i64)
    ensures
        r == instant(*t),
{
    match t.created_at {
        Some(ms) => ms,
        None => 0,
    }
}

fn date_secs(t: &Tweet) -> (r: u64)
    ensures
        r == date_of(*t),
{
    let ms = instant_of(t);
    if ms > 0 {
        (ms as u64) / 1000
    } else {
        0
    }
}

/// Orders tweets by creation instant; the sort is stable.
pub fn sort_by_instant(tweets: Vec<Tweet>) -> (r: Vec<Tweet>)
    ensures
        r@ == sort_stable(tweets@),
{
    let ghost orig = tweets@;
    let n = tweets.len();
    let mut rest = tweets;
    let mut out: Vec<Tweet> = Vec::new();
    let mut i: usize = 0;
    proof {
        assert(orig.take(0) =~= Seq::<Tweet>::empty());
    }
    while rest.len() > 0
        invariant
            rest@ == orig.skip(i as int),
            n == orig.len(),
            i <= n,
            out@ == sort_stable(orig.take(i as int)),
            out@.len() == i,
        decreases rest@.len(),
    {
        assert(rest@.len() == n - i);
        let t = rest.remove(0);
        assert(rest@ =~= orig.skip(i + 1));
        proof {
            assert(orig.take(i + 1).drop_last() =~= orig.take(i as int));
            assert(orig.take(i + 1).last() == t);
            lemma_sort_stable(orig.take(i as int));
        }
        let key = instant_of(&t);
        let mut j: usize = out.len();
        while j > 0 && instant_of(&out[j - 1]) > key
            invariant
                j <= out@.len(),
                key == instant(t),
                forall|k: int| j <= k < out@.len() ==> instant(#[trigger] out@[k]) > instant(t),
            decreases j,
        {
            j = j - 1;
        }
        proof {
            lemma_insert_at(out@, t, j as int);
        }
        out.insert(j, t);
        i = i + 1;
    }
    proof {
        assert(orig.take(n as int) =~= orig);
    }
    out
}

} // verus!

verus! {

/// `c` is the caption of `t` on a track whose first comment was made in
/// second `origin`.
pub open spec fn chat_from(c: Chat, t: Tweet, origin: int) -> bool {
    &&& c.date == date_of(t)
    &&& c.vpos == date_of(t) - origin
    &&& c.id == Some(t.id)
    &&& c.user_id == match t.user {
        Some(u) => Some(u.screen_name),
        None => None::<String>,
    }
    &&& c.mail is None
    &&& c.content@ == cleaned(t.full_text@)
}

/// `cs` are the captions of `ts`, one for one, timed from the first.
pub open spec fn chats_from(cs: Seq<Chat>, ts: Seq<Tweet>) -> bool {
    &&& cs.len() == ts.len()
    &&& forall|i: int| 0 <= i < cs.len() ==> chat_from(#[trigger] cs[i], ts[i], date_of(ts[0]))
}

proof fn lemma_date_monotone(a: int, b: int)
    requires
        a <= b,
    ensures
        secs(a) <= secs(b),
{
    if a > 0 {
        assert(a / 1000 <= b / 1000) by (nonlinear_arith)
            requires
                0 < a <= b,
        ;
    } else if b > 0 {
        assert(b / 1000 >= 0) by (nonlinear_arith)
            requires
                b > 0,
        ;
    }
}

proof fn lemma_sorted_none_before_first(s: Seq<Tweet>)
    requires
        sorted(s),
    ensures
        none_before_first(s),
{
    assert forall|i: int| 0 <= i < s.len() implies date_of(s[0]) <= date_of(#[trigger] s[i]) by {
        if i > 0 {
            assert(instant(s[0]) <= instant(s[i]));
        }
        lemma_date_monotone(instant(s[0]), instant(s[i]));
    }
}

/// Hands out the captions of tweets in time order, one per call; the first
/// one handed out fixes the origin of the offsets.
pub struct TweetToChatIterator {
    /// The tweets still to come, the next one last.
    rest: Vec<Tweet>,
    origin: Option<u64>,
}

impl TweetToChatIterator {
    /// The tweets still to come, in order.
    pub closed spec fn remaining(&self) -> Seq<Tweet> {
        Seq::new(self.rest@.len(), |i: int| self.rest@[self.rest@.len() - 1 - i])
    }

    /// The second of the first caption handed out, if there was one.
    pub closed spec fn origin(&self) -> Option<int> {
        match self.origin {
            Some(o) => Some(o as int),
            None => None,
        }
    }

    pub closed spec fn wf(&self) -> bool {
        &&& self.origin is None ==> none_before_first(self.remaining())
        &&& self.origin matches Some(o) ==> forall|i: int|
            0 <= i < self.remaining().len() ==> o <= date_of(#[trigger] self.remaining()[i])
    }

    /// An iterator over tweets none of which was made in an earlier second
    /// than the first one.
    pub fn new(tweets: Vec<Tweet>) -> (r: TweetToChatIterator)
        requires
            none_before_first(tweets@),
        ensures
            r.wf(),
            r.remaining() == tweets@,
            r.origin() is None,
    {
        let ghost orig = tweets@;
        let mut src = tweets;
        let mut rest: Vec<Tweet> = Vec::new();
        while src.len() > 0
            invariant
                src@.len() + rest@.len() == orig.len(),
                forall|k: int| 0 <= k < src@.len() ==> src@[k] == orig[k],
                forall|k: int|
                    0 <= k < rest@.len() ==> rest@[k] == orig[orig.len() - 1 - k],
            decreases src@.len(),
        {
            let t = src.pop().unwrap();
            rest.push(t);
        }
        let r = TweetToChatIterator { rest, origin: None };
        assert(r.remaining() =~= orig);
        r
    }

    /// How many captions are still to come.
    pub fn len(&self) -> (r: usize)
        ensures
            r == self.remaining().len(),
    {
        self.rest.len()
    }

    /// The caption of the next tweet, timed from the first caption handed
    /// out; none once every tweet has had its caption.
    pub fn next(&mut self, cleaner: &Cleaner) -> (r: Option<Chat>)
        requires
            old(self).wf(),
            cleaner.wf(),
        ensures
            final(self).wf(),
            old(self).remaining().len() == 0 ==> r is None && final(self).remaining() == old(
                self,
            ).remaining() && final(self).origin() == old(self).origin(),
            old(self).remaining().len() > 0 ==> {
                let t = old(self).remaining()[0];
                let o = match old(self).origin() {
                    Some(o) => o,
                    None => date_of(t),
                };
                &&& r matches Some(c) && chat_from(c, t, o)
                &&& final(self).remaining() == old(self).remaining().drop_first()
                &&& final(self).origin() == Some(o)
            },
    {
        let ghost before = self.remaining();
        let t = match self.rest.pop() {
            Some(t) => t,
            None => return None,
        };
        assert(t == before[0]);
        assert(self.remaining() =~= before.drop_first());
        let date = date_secs(&t);
        let origin = match self.origin {
            Some(o) => o,
            None => date,
        };
        proof {
            assert(origin <= date_of(t));
            assert forall|i: int| 0 <= i < self.remaining().len() implies origin <= date_of(
                #[trigger] self.remaining()[i],
            ) by {
                assert(self.remaining()[i] == before[i + 1]);
                assert(origin <= date_of(before[i + 1]));
            }
        }
        self.origin = Some(origin);
        let vpos = date - origin;
        let content = cleaner.cleanup(t.full_text.as_str());
        let Tweet { id, created_at: _, full_text: _, user_id: _, extra: _, user } = t;
        let user_id = match user {
            Some(u) => Some(u.screen_name),
            None => None,
        };
        Some(Chat { date, vpos, user_id, id: Some(id), mail: None, content })
    }
}

/// Turns tweets into captions, in the order given: the first one is at
/// offset zero and each later one at its distance in seconds from it, so no
/// tweet may be from an earlier second than the first.
pub fn map_to_chat(tweets: Vec<Tweet>, cleaner: &Cleaner) -> (r: Vec<Chat>)
    requires
        cleaner.wf(),
        none_before_first(tweets@),
    ensures
        chats_from(r@, tweets@),
{
    let ghost orig = tweets@;
    let mut it = TweetToChatIterator::new(tweets);
    let mut out: Vec<Chat> = Vec::new();
    while it.len() > 0
        invariant
            it.wf(),
            cleaner.wf(),
            out@.len() + it.remaining().len() == orig.len(),
            it.remaining() == orig.skip(out@.len() as int),
            out@.len() > 0 ==> it.origin() == Some(date_of(orig[0])),
            out@.len() == 0 ==> it.origin() is None,
            forall|k: int|
                0 <= k < out@.len() ==> chat_from(#[trigger] out@[k], orig[k], date_of(orig[0])),
        decreases it.remaining().len(),
    {
        let ghost i: int = out@.len() as int;
        assert(it.remaining()[0] == orig[i]);
        match it.next(cleaner) {
            Some(c) => {
                out.push(c);
            },
            None => {},
        }
        assert(orig.skip(i).drop_first() =~= orig.skip(i + 1));
    }
    out
}

/// Orders tweets by creation instant, stably, and turns them into captions.
pub fn map_to_sorted_chats(tweets: Vec<Tweet>, cleaner: &Cleaner) -> (r: Vec<Chat>)
    requires
        cleaner.wf(),
    ensures
        chats_from(r@, sort_stable(tweets@)),
{
    let sorted_tweets = sort_by_instant(tweets);
    proof {
        lemma_sort_stable(tweets@);
        lemma_sorted_none_before_first(sorted_tweets@);
    }
    map_to_chat(sorted_tweets, cleaner)
}

/// Captions made from any tweets come in non-decreasing order of date; the
/// first is at offset zero and every offset is the distance from its date.
pub proof fn lemma_chats_in_time_order(ts: Seq<Tweet>, cs: Seq<Chat>)
    requires
        chats_from(cs, sort_stable(ts)),
    ensures
        forall|i: int, j: int| 0 <= i < j < cs.len() ==> cs[i].date <= cs[j].date,
        cs.len() > 0 ==> cs[0].vpos == 0,
        forall|i: int| 0 <= i < cs.len() ==> cs[i].vpos == cs[i].date - cs[0].date,
        cs.len() == ts.len(),
{
    lemma_sort_stable(ts);
    let s = sort_stable(ts);
    assert forall|i: int, j: int| 0 <= i < j < cs.len() implies cs[i].date <= cs[j].date by {
        assert(chat_from(cs[i], s[i], date_of(s[0])));
        assert(chat_from(cs[j], s[j], date_of(s[0])));
        lemma_date_monotone(instant(s[i]), instant(s[j]));
    }
    if cs.len() > 0 {
        assert(chat_from(cs[0], s[0], date_of(s[0])));
    }
}

} // verus!
