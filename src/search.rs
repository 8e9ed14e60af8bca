//! Walking the search results page by page: which request comes next, and
//! when the walk is over.
use crate::cookie::pairs_view;
use crate::response::{all_entries, cursor_in, ids_parse, opt_view, RawResponse};
use crate::text::copy_str;
use crate::twitter::{ParseIdError, Query, Tweet};
use vstd::prelude::*;

verus! {

/// The search endpoint, before its query string.
pub const SEARCH_URL: &'static str = "https://api.twitter.com/2/search/adaptive.json";

/// The query parameters every search request carries, in order.
pub open spec fn spec_default_params() -> Seq<(Seq<char>, Seq<char>)> {
    seq![
        ("include_profile_interstitial_type"@, "1"@),
        ("include_blocking"@, "1"@),
        ("include_blocked_by"@, "1"@),
        ("include_followed_by"@, "1"@),
        ("include_want_retweets"@, "1"@),
        ("include_mute_edge"@, "1"@),
        ("include_can_dm"@, "1"@),
        ("include_can_media_tag"@, "1"@),
        ("skip_status"@, "1"@),
        ("cards_platform"@, "Web-12"@),
        ("include_cards"@, "1"@),
        ("include_ext_alt_text"@, "true"@),
        ("include_quote_count"@, "true"@),
        ("include_reply_count"@, "1"@),
        ("tweet_mode"@, "extended"@),
        ("include_entities"@, "true"@),
        ("include_user_entities"@, "true"@),
        ("include_ext_media_color"@, "true"@),
        ("include_ext_media_availability"@, "true"@),
        ("send_error_codes"@, "true"@),
        ("simple_quoted_tweet"@, "true"@),
        ("tweet_search_mode"@, "live"@),
        ("count"@, "100"@),
        ("query_source"@, "typed_query"@),
        ("pc"@, "1"@),
        ("spelling_corrections"@, "1"@),
        ("ext"@, "mediaStats%2ChighlightedLabel"@)
    ]
}

fn push_param(p: &mut Vec<(String, String)>, k: &str, v: &str)
    ensures
        pairs_view(final(p)@) == pairs_view(old(p)@).push((k@, v@)),
{
    let ghost before = pairs_view(p@);
    p.push((copy_str(k), copy_str(v)));
    proof {
        assert(pairs_view(p@) =~= before.push((k@, v@)));
    }
}

/// The fixed query parameters of the search endpoint.
pub fn default_params() -> (r: Vec<(String, String)>)
    ensures
        pairs_view(r@) == spec_default_params(),
{
    let mut p: Vec<(String, String)> = Vec::new();
    proof {
        assert(pairs_view(p@) =~= Seq::empty());
    }
    push_param(&mut p, "include_profile_interstitial_type", "1");
    push_param(&mut p, "include_blocking", "1");
    push_param(&mut p, "include_blocked_by", "1");
    push_param(&mut p, "include_followed_by", "1");
    push_param(&mut p, "include_want_retweets", "1");
    push_param(&mut p, "include_mute_edge", "1");
    push_param(&mut p, "include_can_dm", "1");
    push_param(&mut p, "include_can_media_tag", "1");
    push_param(&mut p, "skip_status", "1");
    push_param(&mut p, "cards_platform", "Web-12");
    push_param(&mut p, "include_cards", "1");
    push_param(&mut p, "include_ext_alt_text", "true");
    push_param(&mut p, "include_quote_count", "true");
    push_param(&mut p, "include_reply_count", "1");
    push_param(&mut p, "tweet_mode", "extended");
    push_param(&mut p, "include_entities", "true");
    push_param(&mut p, "include_user_entities", "true");
    push_param(&mut p, "include_ext_media_color", "true");
    push_param(&mut p, "include_ext_media_availability", "true");
    push_param(&mut p, "send_error_codes", "true");
    push_param(&mut p, "simple_quoted_tweet", "true");
    push_param(&mut p, "tweet_search_mode", "live");
    push_param(&mut p, "count", "100");
    push_param(&mut p, "query_source", "typed_query");
    push_param(&mut p, "pc", "1");
    push_param(&mut p, "spelling_corrections", "1");
    push_param(&mut p, "ext", "mediaStats%2ChighlightedLabel");
    proof {
        assert(pairs_view(p@) =~= spec_default_params());
    }
    p
}

} // verus!

verus! {

/// Where a search walk stands: the serialized query, the cursor of the next
/// page, and whether the walk is over.
#[derive(Debug)]
pub struct Pagination {
    pub query: String,
    pub cursor: Option<String>,
    pub finished: bool,
}

/// The parameters of a request: the fixed ones, the query, and the cursor
/// when there is one.
pub open spec fn request_params(query: Seq<char>, cursor: Option<Seq<char>>) -> Seq<
    (Seq<char>, Seq<char>),
> {
    let base = spec_default_params().push(("q"@, query));
    match cursor {
        Some(c) => base.push(("cursor"@, c)),
        None => base,
    }
}

/// Whether the walk ends with this page: it holds no tweet, it names no next
/// cursor, or it cannot be decoded.
pub open spec fn ends_walk(res: RawResponse) -> bool {
    res.tweets@.len() == 0 || cursor_in(all_entries(res.instructions@)) is None || !ids_parse(
        res.tweets@,
    )
}

impl Pagination {
    /// A walk that has not fetched anything yet.
    pub fn new(query: &Query) -> (r: Pagination)
        ensures
            r.query@ == query.spec_to_string(),
            r.cursor is None,
            !r.finished,
    {
        Pagination { query: query.to_string(), cursor: None, finished: false }
    }

    /// The parameters of the next request, or none once the walk is over.
    pub fn next_request(&self) -> (r: Option<Vec<(String, String)>>)
        ensures
            self.finished ==> r is None,
            !self.finished ==> (r matches Some(p) && pairs_view(p@) == request_params(
                self.query@,
                opt_view(self.cursor),
            )),
    {
        if self.finished {
            return None;
        }
        let mut p = default_params();
        push_param(&mut p, "q", self.query.as_str());
        match &self.cursor {
            Some(c) => push_param(&mut p, "cursor", c.as_str()),
            None => {},
        }
        Some(p)
    }

    /// Takes in a fetched page: keeps its cursor for the next request, ends
    /// the walk where the page says so, and hands back its decoded tweets.
    pub fn on_page(&mut self, res: RawResponse) -> (r: Result<Vec<Tweet>, ParseIdError>)
        ensures
            final(self).query == old(self).query,
            opt_view(final(self).cursor) == cursor_in(all_entries(res.instructions@)),
            final(self).finished == (old(self).finished || ends_walk(res)),
            ids_parse(res.tweets@) ==> (r matches Ok(v) && v@.len() == res.tweets@.len()
                && forall|i: int|
                0 <= i < v@.len() ==> crate::response::decoded_from(
                    #[trigger] v@[i],
                    res.tweets@[i],
                    res.users@,
                )),
            !ids_parse(res.tweets@) ==> r == Err::<Vec<Tweet>, ParseIdError>(ParseIdError),
    {
        let cursor = res.next_cursor();
        let empty = res.tweets.len() == 0;
        let last = empty || cursor.is_none();
        let r = res.into_tweets();
        self.finished = self.finished || last || r.is_err();
        self.cursor = cursor;
        r
    }

    /// A request failed: nothing more is fetched.
    pub fn on_failure(&mut self)
        ensures
            final(self).query == old(self).query,
            final(self).finished,
    {
        self.finished = true;
    }
}

/// A page with no tweets, or with no cursor for a next page, is the last
/// one: after it the walk asks for nothing more.
pub proof fn lemma_last_page_ends_walk(res: RawResponse)
    requires
        res.tweets@.len() == 0 || cursor_in(all_entries(res.instructions@)) is None,
    ensures
        ends_walk(res),
{
}

} // verus!

verus! {

/// The URL that `base` becomes with `params` appended to its query, form
/// encoded, as `url` serializes it; none when `base` is not a URL.
pub uninterp spec fn url_with_params(
    base: Seq<char>,
    params: Seq<(Seq<char>, Seq<char>)>,
) -> Option<Seq<char>>;

/// Relies on `url::Url::parse_with_params` (re-exported as `reqwest::Url`):
/// parses `base` and appends the pairs to its query; what comes out depends
/// on the arguments alone.
#[verifier::external_body]
fn encode_url(base: &str, params: &Vec<(String, String)>) -> (r: Option<String>)
    ensures
        opt_view(r) == url_with_params(base@, pairs_view(params@)),
{
    reqwest::Url::parse_with_params(base, params).ok().map(String::from)
}

/// The full URL of a request to the search endpoint with these parameters.
pub fn request_url(params: &Vec<(String, String)>) -> (r: Option<String>)
    ensures
        opt_view(r) == url_with_params(SEARCH_URL@, pairs_view(params@)),
{
    encode_url(SEARCH_URL, params)
}

} // verus!
