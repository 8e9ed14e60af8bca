//! The comment-track document: an XML `packet` of `chat` elements.
use crate::chat::Chat;
use crate::text::{push_char, push_str};
use vstd::prelude::*;

verus! {

pub open spec fn digit_char(d: int) -> char {
    if d == 0 {
        '0'
    } else if d == 1 {
        '1'
    } else if d == 2 {
        '2'
    } else if d == 3 {
        '3'
    } else if d == 4 {
        '4'
    } else if d == 5 {
        '5'
    } else if d == 6 {
        '6'
    } else if d == 7 {
        '7'
    } else if d == 8 {
        '8'
    } else {
        '9'
    }
}

/// The decimal digits of `n`, without leading zeros.
pub open spec fn decimal(n: nat) -> Seq<char>
    decreases n,
{
    if n < 10 {
        seq![digit_char(n as int)]
    } else {
        decimal(n / 10).push(digit_char((n % 10) as int))
    }
}

fn digit(d: u64) -> (c: char)
    requires
        d < 10,
    ensures
        c == digit_char(d as int),
{
    if d == 0 {
        '0'
    } else if d == 1 {
        '1'
    } else if d == 2 {
        '2'
    } else if d == 3 {
        '3'
    } else if d == 4 {
        '4'
    } else if d == 5 {
        '5'
    } else if d == 6 {
        '6'
    } else if d == 7 {
        '7'
    } else if d == 8 {
        '8'
    } else {
        '9'
    }
}

/// Appends the decimal form of `n`.
pub fn push_decimal(s: &mut String, n: u64)
    ensures
        final(s)@ == old(s)@ + decimal(n as nat),
    decreases n,
{
    if n >= 10 {
        push_decimal(s, n / 10);
    }
    push_char(s, digit(n % 10));
    proof {
        if n >= 10 {
            assert(final(s)@ =~= old(s)@ + decimal(n as nat));
        } else {
            assert(final(s)@ =~= old(s)@ + decimal(n as nat));
        }
    }
}

/// How a character stands in XML text or in an attribute value.
pub open spec fn escape_char(c: char) -> Seq<char> {
    if c == '<' {
        "&lt;"@
    } else if c == '>' {
        "&gt;"@
    } else if c == '&' {
        "&amp;"@
    } else if c == '\'' {
        "&apos;"@
    } else if c == '"' {
        "&quot;"@
    } else {
        seq![c]
    }
}

pub open spec fn escape(s: Seq<char>) -> Seq<char>
    decreases s.len(),
{
    if s.len() == 0 {
        Seq::empty()
    } else {
        escape(s.drop_last()) + escape_char(s.last())
    }
}

/// Appends `t` with the five XML special characters escaped.
pub fn push_escaped(s: &mut String, t: &str)
    ensures
        final(s)@ == old(s)@ + escape(t@),
{
    let n = t.unicode_len();
    let mut i: usize = 0;
    proof {
        assert(t@.take(0) =~= Seq::<char>::empty());
        assert(s@ =~= old(s)@ + escape(t@.take(0)));
    }
    while i < n
        invariant
            n == t@.len(),
            i <= n,
            s@ == old(s)@ + escape(t@.take(i as int)),
        decreases n - i,
    {
        let c = t.get_char(i);
        let ghost before = s@;
        if c == '<' {
            push_str(s, "&lt;");
        } else if c == '>' {
            push_str(s, "&gt;");
        } else if c == '&' {
            push_str(s, "&amp;");
        } else if c == '\'' {
            push_str(s, "&apos;");
        } else if c == '"' {
            push_str(s, "&quot;");
        } else {
            push_char(s, c);
            assert(s@ =~= before + seq![c]);
        }
        proof {
            assert(t@.take(i + 1).drop_last() =~= t@.take(i as int));
            assert(s@ =~= old(s)@ + escape(t@.take(i + 1)));
        }
        i = i + 1;
    }
    proof {
        assert(t@.take(n as int) =~= t@);
    }
}

} // verus!

verus! {

/// ` name="value"`, the value escaped.
pub open spec fn attr(name: Seq<char>, value: Seq<char>) -> Seq<char> {
    " "@ + name + "=\""@ + escape(value) + "\""@
}

/// ` name="n"`.
pub open spec fn num_attr(name: Seq<char>, n: nat) -> Seq<char> {
    " "@ + name + "=\""@ + decimal(n) + "\""@
}

pub open spec fn opt_attr(name: Seq<char>, v: Option<String>) -> Seq<char> {
    match v {
        Some(v) => attr(name, v@),
        None => Seq::empty(),
    }
}

/// The element of comment `c` at position `no` of the track.
pub open spec fn chat_element(c: Chat, no: nat) -> Seq<char> {
    "\n <chat"@ + num_attr("date"@, c.date as nat) + num_attr("vpos"@, c.vpos as nat) + num_attr(
        "no"@,
        no,
    ) + opt_attr("user_id"@, c.user_id) + opt_attr("mail"@, c.mail) + opt_attr("id"@, c.id)
        + ">"@ + escape(c.content@) + "</chat>"@
}

/// The elements of `cs`, numbered from one by position; a comment with
/// empty text gives no element but keeps its number.
pub open spec fn chat_elements(cs: Seq<Chat>) -> Seq<char>
    decreases cs.len(),
{
    if cs.len() == 0 {
        Seq::empty()
    } else {
        chat_elements(cs.drop_last()) + if cs.last().content@.len() == 0 {
            Seq::empty()
        } else {
            chat_element(cs.last(), cs.len())
        }
    }
}

/// Everything before the first comment.
pub open spec fn head(n: nat) -> Seq<char> {
    "<?xml version=\"1.0\" encoding=\"utf-8\"?>"@ + "\n<packet>"@ + "\n <thread"@ + num_attr(
        "last_res"@,
        (n - 1) as nat,
    ) + " ticket=\"\"/>"@ + "\n <view_counter video=\"0\"/>"@
}

/// The document of a track that holds at least one comment.
pub open spec fn document(cs: Seq<Chat>) -> Seq<char> {
    head(cs.len()) + chat_elements(cs) + "\n</packet>"@
}

fn push_attr(s: &mut String, name: &str, v: &str)
    ensures
        final(s)@ == old(s)@ + attr(name@, v@),
{
    push_str(s, " ");
    push_str(s, name);
    push_str(s, "=\"");
    push_escaped(s, v);
    push_str(s, "\"");
    assert(final(s)@ =~= old(s)@ + attr(name@, v@));
}

fn push_num_attr(s: &mut String, name: &str, n: u64)
    ensures
        final(s)@ == old(s)@ + num_attr(name@, n as nat),
{
    push_str(s, " ");
    push_str(s, name);
    push_str(s, "=\"");
    push_decimal(s, n);
    push_str(s, "\"");
    assert(final(s)@ =~= old(s)@ + num_attr(name@, n as nat));
}

fn push_opt_attr(s: &mut String, name: &str, v: &Option<String>)
    ensures
        final(s)@ == old(s)@ + opt_attr(name@, *v),
{
    match v {
        Some(v) => push_attr(s, name, v.as_str()),
        None => {
            assert(final(s)@ =~= old(s)@ + opt_attr(name@, None));
        },
    }
}

fn push_chat(s: &mut String, c: &Chat, no: u64)
    ensures
        final(s)@ == old(s)@ + chat_element(*c, no as nat),
{
    push_str(s, "\n <chat");
    push_num_attr(s, "date", c.date);
    push_num_attr(s, "vpos", c.vpos);
    push_num_attr(s, "no", no);
    push_opt_attr(s, "user_id", &c.user_id);
    push_opt_attr(s, "mail", &c.mail);
    push_opt_attr(s, "id", &c.id);
    push_str(s, ">");
    push_escaped(s, c.content.as_str());
    push_str(s, "</chat>");
    assert(final(s)@ =~= old(s)@ + chat_element(*c, no as nat));
}

/// The document of a track, or none for a track without comments, of which
/// nothing is written.
pub fn render_xml(chats: &Vec<Chat>) -> (r: Option<String>)
    ensures
        chats@.len() == 0 ==> r is None,
        chats@.len() > 0 ==> (r matches Some(d) && d@ == document(chats@)),
{
    let n = chats.len();
    if n == 0 {
        return None;
    }
    let mut s = String::new();
    push_str(&mut s, "<?xml version=\"1.0\" encoding=\"utf-8\"?>");
    push_str(&mut s, "\n<packet>");
    push_str(&mut s, "\n <thread");
    push_num_attr(&mut s, "last_res", (n - 1) as u64);
    push_str(&mut s, " ticket=\"\"/>");
    push_str(&mut s, "\n <view_counter video=\"0\"/>");
    proof {
        assert(s@ =~= head(n as nat));
        assert(chats@.take(0) =~= Seq::<Chat>::empty());
        assert(s@ =~= head(n as nat) + chat_elements(chats@.take(0)));
    }
    let mut i: usize = 0;
    while i < n
        invariant
            n == chats@.len(),
            i <= n,
            s@ == head(n as nat) + chat_elements(chats@.take(i as int)),
        decreases n - i,
    {
        let ghost before = s@;
        let c = &chats[i];
        if c.content.as_str().unicode_len() > 0 {
            push_chat(&mut s, c, (i + 1) as u64);
        }
        proof {
            let t = chats@.take(i + 1);
            assert(t.drop_last() =~= chats@.take(i as int));
            assert(t.last() == chats@[i as int]);
            assert(s@ =~= head(n as nat) + chat_elements(t));
        }
        i = i + 1;
    }
    push_str(&mut s, "\n</packet>");
    proof {
        assert(chats@.take(n as int) =~= chats@);
        assert(s@ =~= document(chats@));
    }
    Some(s)
}

} // verus!
