use std::collections::HashMap;
use twinicodo::chat::{map_to_chat, map_to_sorted_chats, sort_by_instant, Chat, TweetToChatIterator};
use twinicodo::clean::Cleaner;
use twinicodo::config::Config;
use twinicodo::cookie::{cookie_map, Cookie, CookieError};
use twinicodo::response::{Entry, Instruction, RawResponse, RawTweet};
use twinicodo::clean::Pattern;
use twinicodo::search::{default_params, request_url, Pagination, SEARCH_URL};
use twinicodo::twitter::{parse_i64_str, Auth, ParseIdError, Query, Tweet, TweetID, User};
use twinicodo::xml::render_xml;

fn tweet(id: &str, ms: Option<i64>, text: &str) -> Tweet {
    Tweet {
        id: id.to_string(),
        created_at: ms,
        full_text: text.to_string(),
        user_id: "u".to_string(),
        extra: vec![],
        user: None,
    }
}

fn chat(date: u64, vpos: u64, content: &str) -> Chat {
    Chat { date, vpos, user_id: None, id: None, mail: None, content: content.to_string() }
}

fn raw_tweet(id: &str, user: &str) -> RawTweet {
    RawTweet {
        id_str: TweetID(id.to_string()),
        full_text: format!("text of {}", id),
        user_id: 1,
        user_id_str: user.to_string(),
        extra: vec![("lang".to_string(), "\"ja\"".to_string())],
    }
}

fn user(id: &str, screen: &str) -> User {
    User {
        id: 7,
        id_str: id.to_string(),
        name: "Name".to_string(),
        screen_name: screen.to_string(),
        extra: vec![],
    }
}

fn cursor_entry(id: &str, cursor: Option<&str>) -> Entry {
    Entry { entry_id: id.to_string(), cursor: cursor.map(|c| c.to_string()) }
}

fn page(tweets: Vec<RawTweet>, cursor: Option<&str>) -> RawResponse {
    let instructions = match cursor {
        Some(c) => vec![Instruction {
            add_entries: Some(vec![
                cursor_entry("sq-I-t-1", None),
                cursor_entry("sq-cursor-bottom", Some(c)),
            ]),
            replace_entry: None,
        }],
        None => vec![],
    };
    RawResponse { tweets, users: vec![], instructions }
}

#[test]
fn test_cookie_map() {
    let mut expected = HashMap::<&str, &str>::new();
    expected.insert("foo", "bar");
    expected.insert("hoge", "bar");
    let got = cookie_map("foo=bar; hoge=bar");
    let got: HashMap<&str, &str> = got.iter().map(|(k, v)| (k.as_str(), v.as_str())).collect();
    assert_eq!(expected, got);
}

#[test]
fn test_tweet_id() {
    assert_eq!(
        1596385521282i64,
        TweetID("1289960487912783872".to_string()).datetime().unwrap()
    );
}

#[test]
fn cookie_parses_and_writes_back() {
    let c = Cookie::from_str("auth_token=A; _twitter_sess=B; ct0=C").unwrap();
    assert_eq!(c.auth_token, "A");
    assert_eq!(c.twitter_sess, "B");
    assert_eq!(c.ct0, "C");
    assert_eq!(c.to_string(), "auth_token=A; _twitter_sess=B; ct0=C");
}

#[test]
fn cookie_missing_keys_are_named() {
    assert_eq!(
        Cookie::from_str("_twitter_sess=B; ct0=C").unwrap_err(),
        CookieError::AuthTokenMissing
    );
    assert_eq!(
        Cookie::from_str("auth_token=A; ct0=C").unwrap_err(),
        CookieError::TwitterSessMissing
    );
    assert_eq!(
        Cookie::from_str("auth_token=A; _twitter_sess=B").unwrap_err(),
        CookieError::Ct0Missing
    );
    assert_eq!(Cookie::from_str("").unwrap_err(), CookieError::AuthTokenMissing);
}

#[test]
fn cookie_ignores_unknown_keys_and_keeps_the_last_value() {
    let c = Cookie::from_str(" lang=en;auth_token=old; ct0=C ;auth_token=new; _twitter_sess=B=x; junk")
        .unwrap();
    assert_eq!(c.auth_token, "new");
    assert_eq!(c.twitter_sess, "B");
    assert_eq!(c.ct0, "C");
}

#[test]
fn cookie_map_skips_pieces_without_equals() {
    let m = cookie_map("a=1;;b ; c = 2 ;");
    assert_eq!(m.len(), 2);
    assert_eq!(m[0], ("a".to_string(), "1".to_string()));
    assert_eq!(m[1], ("c ".to_string(), " 2".to_string()));
}

#[test]
fn identifier_errors() {
    assert_eq!(TweetID("12a".to_string()).datetime(), Err(ParseIdError));
    assert_eq!(TweetID("".to_string()).datetime(), Err(ParseIdError));
    assert_eq!(TweetID("-".to_string()).datetime(), Err(ParseIdError));
    assert_eq!(TweetID("9223372036854775808".to_string()).datetime(), Err(ParseIdError));
    assert_eq!(TweetID("0".to_string()).datetime(), Ok(1288834974657));
}

#[test]
fn integer_parsing_matches_std() {
    for s in [
        "0", "+5", "-5", "42", "-9223372036854775808", "9223372036854775807",
        "9223372036854775808", "-9223372036854775809", "", "+", "-", "1 ", "00012", "x",
    ] {
        assert_eq!(parse_i64_str(s), s.parse::<i64>().ok(), "{}", s);
    }
}

#[test]
fn query_serializes_with_bounds() {
    let q = Query {
        text: "cats dogs".to_string(),
        since: Some("2020-01-01".to_string()),
        until: Some("2020-02-01".to_string()),
    };
    assert_eq!(q.to_string(), "cats dogs since:2020-01-01 until:2020-02-01");
    let q = Query { text: "x".to_string(), since: None, until: Some("2020-02-01".to_string()) };
    assert_eq!(q.to_string(), "x until:2020-02-01");
    let q = Query { text: "x".to_string(), since: None, until: None };
    assert_eq!(q.to_string(), "x");
}

fn auth(token: &str) -> Auth {
    Auth {
        authorization_token: token.to_string(),
        csrf_token: "csrf".to_string(),
        cookie: Cookie::from_str("auth_token=A; _twitter_sess=B; ct0=C").unwrap(),
    }
}

#[test]
fn auth_headers_in_order() {
    let h = auth("tok").headers().unwrap();
    assert_eq!(
        h,
        vec![
            ("authorization".to_string(), "Bearer tok".to_string()),
            ("x-csrf-token".to_string(), "csrf".to_string()),
            ("cookie".to_string(), "auth_token=A; _twitter_sess=B; ct0=C".to_string()),
        ]
    );
    assert!(auth("t\tab é").headers().is_ok());
}

#[test]
fn auth_headers_reject_control_characters() {
    assert!(auth("bad\ntoken").headers().is_err());
    assert!(auth("bad\u{7f}").headers().is_err());
}

#[test]
fn config_validates_and_converts() {
    let c = Config::from_cookie(
        "tok".to_string(),
        "csrf".to_string(),
        "auth_token=A; _twitter_sess=B; ct0=C".to_string(),
    )
    .unwrap();
    assert!(c.init);
    assert!(c.validate());
    assert_eq!(c.cookie_twitter_sess, "B");
    let a = c.into_auth();
    assert_eq!(a.cookie.to_string(), "auth_token=A; _twitter_sess=B; ct0=C");
    assert!(!Config::default().validate());
    assert_eq!(
        Config::from_cookie("t".to_string(), "c".to_string(), "auth_token=A".to_string())
            .unwrap_err(),
        CookieError::TwitterSessMissing
    );
}

#[test]
fn cleanup_removes_hashtags_and_links() {
    let c = Cleaner::new().unwrap();
    // the link goes but the blanks on both of its sides stay
    assert_eq!(c.cleanup("#tag hello http://example.com world"), "hello  world");
    assert_eq!(c.cleanup("  plain text \n"), "plain text");
    assert_eq!(c.cleanup("#only #tags"), "");
    assert_eq!(c.cleanup("see ftp://files.example/x"), "see");
}

#[test]
fn sorting_is_stable_by_instant() {
    let v = vec![
        tweet("a", Some(2000), ""),
        tweet("b", None, ""),
        tweet("c", Some(1000), ""),
        tweet("d", Some(2000), ""),
        tweet("e", Some(-5), ""),
    ];
    let ids: Vec<String> = sort_by_instant(v).into_iter().map(|t| t.id).collect();
    assert_eq!(ids, vec!["e", "b", "c", "a", "d"]);
}

#[test]
fn offsets_count_from_the_first_record() {
    let c = Cleaner::new().unwrap();
    for order in [[0usize, 1, 2], [1, 0, 2], [2, 1, 0], [2, 0, 1]] {
        let secs = [100i64, 50, 150];
        let v: Vec<Tweet> = order
            .iter()
            .map(|&i| tweet(&format!("id{}", secs[i]), Some(secs[i] * 1000), "x"))
            .collect();
        let chats = map_to_sorted_chats(v, &c);
        let dates: Vec<u64> = chats.iter().map(|c| c.date).collect();
        let vpos: Vec<u64> = chats.iter().map(|c| c.vpos).collect();
        assert_eq!(dates, vec![50, 100, 150]);
        assert_eq!(vpos, vec![0, 50, 100]);
        assert_eq!(chats[0].id, Some("id50".to_string()));
    }
}

#[test]
fn chat_fields_come_from_the_tweet() {
    let c = Cleaner::new().unwrap();
    let mut t = tweet("9", Some(1_596_385_521_282), " #x hi https://t.co/a ");
    t.user = Some(user("u", "someone"));
    let chats = map_to_chat(vec![t], &c);
    assert_eq!(chats.len(), 1);
    assert_eq!(chats[0].date, 1_596_385_521);
    assert_eq!(chats[0].vpos, 0);
    assert_eq!(chats[0].user_id, Some("someone".to_string()));
    assert_eq!(chats[0].id, Some("9".to_string()));
    assert_eq!(chats[0].mail, None);
    assert_eq!(chats[0].content, "hi");
}

#[test]
fn empty_input_gives_nothing_to_write() {
    let c = Cleaner::new().unwrap();
    let chats = map_to_sorted_chats(vec![], &c);
    assert!(chats.is_empty());
    assert_eq!(render_xml(&chats), None);
}

#[test]
fn empty_text_keeps_its_number() {
    let chats = vec![chat(10, 0, "one"), chat(11, 1, ""), chat(12, 2, "three")];
    let doc = render_xml(&chats).unwrap();
    assert_eq!(doc.matches("<chat ").count(), 2);
    assert!(doc.contains("no=\"1\""));
    assert!(!doc.contains("no=\"2\""));
    assert!(doc.contains("no=\"3\""));
    assert!(doc.contains("last_res=\"2\""));
}

#[test]
fn document_layout() {
    let mut c = chat(1596385521, 7, "a<b & 'c' \"d\"");
    c.user_id = Some("me".to_string());
    c.id = Some("123".to_string());
    let doc = render_xml(&vec![c]).unwrap();
    assert_eq!(
        doc,
        "<?xml version=\"1.0\" encoding=\"utf-8\"?>\n<packet>\n <thread last_res=\"0\" ticket=\"\"/>\n <view_counter video=\"0\"/>\n <chat date=\"1596385521\" vpos=\"7\" no=\"1\" user_id=\"me\" id=\"123\">a&lt;b &amp; &apos;c&apos; &quot;d&quot;</chat>\n</packet>"
    );
}

#[test]
fn decode_reads_instants_and_authors() {
    let mut p = page(vec![raw_tweet("1289960487912783872", "u1"), raw_tweet("5", "nobody")], None);
    p.users = vec![("u1".to_string(), user("u1", "first"))];
    let v = p.into_tweets().unwrap();
    assert_eq!(v.len(), 2);
    assert_eq!(v[0].created_at, Some(1596385521282));
    assert_eq!(v[0].user.as_ref().map(|u| u.screen_name.as_str()), Some("first"));
    assert_eq!(v[0].full_text, "text of 1289960487912783872");
    assert_eq!(v[0].extra, vec![("lang".to_string(), "\"ja\"".to_string())]);
    assert!(v[1].user.is_none());
    assert_eq!(v[1].created_at, Some(1288834974657));
}

#[test]
fn decode_fails_on_a_bad_identifier() {
    let p = page(vec![raw_tweet("1", "u"), raw_tweet("nope", "u")], None);
    assert_eq!(p.into_tweets().unwrap_err(), ParseIdError);
}

#[test]
fn cursor_is_found_in_add_and_replace() {
    let p = page(vec![], Some("next"));
    assert_eq!(p.next_cursor(), Some("next".to_string()));
    let mut p = page(vec![], None);
    p.instructions = vec![
        Instruction { add_entries: None, replace_entry: None },
        Instruction {
            add_entries: None,
            replace_entry: Some(cursor_entry("sq-cursor-bottom", Some("r"))),
        },
        Instruction {
            add_entries: Some(vec![cursor_entry("sq-cursor-bottom", Some("later"))]),
            replace_entry: None,
        },
    ];
    assert_eq!(p.next_cursor(), Some("r".to_string()));
    let p = page(vec![], None);
    assert_eq!(p.next_cursor(), None);
}

#[test]
fn requests_carry_fixed_params_query_and_cursor() {
    let q = Query { text: "cats".to_string(), since: None, until: None };
    let mut s = Pagination::new(&q);
    let first = s.next_request().unwrap();
    let defaults = default_params();
    assert_eq!(defaults.len(), 27);
    assert_eq!(first.len(), 28);
    assert_eq!(first[27], ("q".to_string(), "cats".to_string()));
    assert!(first.contains(&("count".to_string(), "100".to_string())));
    assert!(first.contains(&("tweet_mode".to_string(), "extended".to_string())));
    let v = s.on_page(page(vec![raw_tweet("1", "u")], Some("c1"))).unwrap();
    assert_eq!(v.len(), 1);
    let second = s.next_request().unwrap();
    assert_eq!(second.len(), 29);
    assert_eq!(second[28], ("cursor".to_string(), "c1".to_string()));
    assert!(SEARCH_URL.starts_with("https://"));
}

fn walk(pages: Vec<RawResponse>) -> (usize, usize) {
    let q = Query { text: "q".to_string(), since: None, until: None };
    let mut s = Pagination::new(&q);
    let mut pages = pages.into_iter();
    let mut requests = 0;
    let mut yielded = 0;
    while s.next_request().is_some() {
        requests += 1;
        let p = pages.next().expect("no page was asked for beyond the last one");
        if s.on_page(p).is_ok() {
            yielded += 1;
        }
    }
    (requests, yielded)
}

#[test]
fn empty_page_ends_the_walk() {
    let pages = vec![
        page(vec![raw_tweet("1", "u")], Some("c1")),
        page(vec![], Some("c2")),
        page(vec![raw_tweet("2", "u")], Some("c3")),
    ];
    assert_eq!(walk(pages), (2, 2));
}

#[test]
fn page_without_cursor_ends_the_walk() {
    let pages = vec![
        page(vec![raw_tweet("1", "u")], None),
        page(vec![raw_tweet("2", "u")], Some("c3")),
    ];
    assert_eq!(walk(pages), (1, 1));
}

#[test]
fn failure_ends_the_walk() {
    let q = Query { text: "q".to_string(), since: None, until: None };
    let mut s = Pagination::new(&q);
    assert!(s.next_request().is_some());
    s.on_failure();
    assert!(s.next_request().is_none());
    let mut s = Pagination::new(&q);
    assert!(s.on_page(page(vec![raw_tweet("x", "u")], Some("c"))).is_err());
    assert!(s.next_request().is_none());
}

#[test]
fn iterator_hands_out_captions_one_by_one() {
    let c = Cleaner::new().unwrap();
    let v = vec![tweet("a", Some(5_000), "#x one"), tweet("b", Some(7_900), "two")];
    let mut it = TweetToChatIterator::new(v);
    assert_eq!(it.len(), 2);
    let first = it.next(&c).unwrap();
    assert_eq!((first.date, first.vpos, first.content.as_str()), (5, 0, "one"));
    assert_eq!(it.len(), 1);
    let second = it.next(&c).unwrap();
    assert_eq!((second.date, second.vpos, second.content.as_str()), (7, 2, "two"));
    assert!(it.next(&c).is_none());
    assert_eq!(it.len(), 0);
}

#[test]
fn later_records_out_of_order_keep_offsets_from_the_first() {
    let c = Cleaner::new().unwrap();
    let v = vec![
        tweet("a", Some(100_000), "x"),
        tweet("b", Some(200_000), "y"),
        tweet("c", Some(150_000), "z"),
    ];
    let chats = map_to_chat(v, &c);
    let vpos: Vec<u64> = chats.iter().map(|c| c.vpos).collect();
    assert_eq!(vpos, vec![0, 100, 50]);
}

#[test]
fn pre_epoch_instants_sort_by_their_instant() {
    let c = Cleaner::new().unwrap();
    let v = vec![tweet("late", Some(3_000), "x"), tweet("early", Some(-2_000), "y")];
    let chats = map_to_sorted_chats(v, &c);
    assert_eq!(chats[0].id, Some("early".to_string()));
    assert_eq!((chats[0].date, chats[1].date, chats[1].vpos), (0, 3, 3));
}

#[test]
fn the_last_user_with_a_key_counts() {
    let mut p = page(vec![raw_tweet("1", "u1")], None);
    p.users = vec![
        ("u1".to_string(), user("u1", "older")),
        ("u1".to_string(), user("u1", "newer")),
    ];
    let v = p.into_tweets().unwrap();
    assert_eq!(v[0].user.as_ref().map(|u| u.screen_name.as_str()), Some("newer"));
}

#[test]
fn invalid_patterns_do_not_compile() {
    assert!(Pattern::new("(unclosed").is_none());
    assert!(Pattern::new("#[\\w_]+").is_some());
}

#[test]
fn request_url_encodes_the_parameters() {
    let params = vec![
        ("q".to_string(), "cats since:2020-01-01".to_string()),
        ("cursor".to_string(), "a&b".to_string()),
    ];
    let url = request_url(&params).unwrap();
    assert!(url.starts_with(SEARCH_URL));
    assert!(url.ends_with("?q=cats+since%3A2020-01-01&cursor=a%26b"));
}
