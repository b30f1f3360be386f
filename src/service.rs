//! Reading the replies of an OpenAI-compatible chat service: plain JSON
//! documents and server-sent event streams.

use vstd::prelude::*;
use vstd::string::{StrSliceExecFns, StringExecFns};
use crate::response::{
    enclosed, get, get_exec, json_parse, opt_str_of, parse_json, strip_fence, strip_fence_chars, Json,
};
use crate::text::{
    chars_of, lower_of, lowercase, concat_chars, find_char, find_char_exec, occurs_at_exec, slice_chars, starts_with,
    string_of, trim, trim_chars,
};

verus! {

/// The text of one part of a streamed content list: the part itself when
/// it is a string, else its `text` member when that is a string.
pub open spec fn part_text(p: Json) -> Seq<char> {
    match p {
        Json::Str(s) => s@,
        _ => opt_str_of(get(p, "text"@)),
    }
}

/// The concatenated texts of the first `n` parts.
pub open spec fn parts_text(parts: Seq<Json>, n: int) -> Seq<char>
    decreases n,
{
    if n <= 0 {
        Seq::empty()
    } else {
        parts_text(parts, n - 1) + part_text(parts[n - 1])
    }
}

/// A non-empty string member `key` of `v`.
pub open spec fn nonempty_str(v: Json, key: Seq<char>) -> Option<Seq<char>> {
    match get(v, key) {
        Some(Json::Str(s)) => if s@.len() > 0 {
            Some(s@)
        } else {
            None
        },
        _ => None,
    }
}

/// What one chunk (or whole reply) carries: visible content, or else
/// reasoning, from its first choice. A streamed `delta` offers, in order,
/// `content`, `text`, a `content` list of parts, then `reasoning_content`;
/// a whole reply offers `message.content` when it is not blank.
pub open spec fn delta_parts(v: Json) -> (Option<Seq<char>>, Option<Seq<char>>) {
    match get(v, "choices"@) {
        Some(Json::Array(a)) if a@.len() > 0 => {
            let c = a@[0];
            match get(c, "delta"@) {
                Some(d) => if nonempty_str(d, "content"@) is Some {
                    (nonempty_str(d, "content"@), None)
                } else if nonempty_str(d, "text"@) is Some {
                    (nonempty_str(d, "text"@), None)
                } else if get(d, "content"@) matches Some(Json::Array(parts)) && parts_text(
                    parts@,
                    parts@.len() as int,
                ).len() > 0 {
                    match get(d, "content"@) {
                        Some(Json::Array(parts)) => (Some(parts_text(parts@, parts@.len() as int)), None),
                        _ => (None, None),
                    }
                } else if nonempty_str(d, "reasoning_content"@) is Some {
                    (None, nonempty_str(d, "reasoning_content"@))
                } else {
                    (None, None)
                },
                None => {
                    let content = match get(c, "message"@) {
                        Some(m) => opt_str_of(get(m, "content"@)),
                        None => Seq::empty(),
                    };
                    if trim(content).len() == 0 {
                        (None, None)
                    } else {
                        (Some(content), None)
                    }
                },
            }
        },
        _ => (None, None),
    }
}

fn nonempty_str_exec(v: &Json, key: &str) -> (r: Option<String>)
    ensures
        match r {
            Some(s) => nonempty_str(*v, key@) == Some(s@),
            None => nonempty_str(*v, key@) is None,
        },
{
    let k = chars_of(key);
    match get_exec(v, k.as_slice()) {
        Some(Json::Str(s)) => {
            if s.as_str().unicode_len() > 0 {
                Some(s.clone())
            } else {
                None
            }
        },
        _ => None,
    }
}

fn parts_text_exec(parts: &Vec<Json>) -> (r: Vec<char>)
    ensures
        r@ == parts_text(parts@, parts@.len() as int),
{
    let key = chars_of("text");
    let mut out: Vec<char> = Vec::new();
    let mut i: usize = 0;
    while i < parts.len()
        invariant
            i <= parts@.len(),
            key@ == "text"@,
            out@ == parts_text(parts@, i as int),
        decreases parts@.len() - i,
    {
        let piece: Vec<char> = match &parts[i] {
            Json::Str(s) => chars_of(s.as_str()),
            p => match get_exec(p, key.as_slice()) {
                Some(Json::Str(s)) => chars_of(s.as_str()),
                _ => Vec::new(),
            },
        };
        out = concat_chars(out.as_slice(), piece.as_slice());
        i = i + 1;
    }
    out
}

/// The content and the reasoning that one chunk of a reply carries.
pub fn extract_openai_chat_delta_parts(v: &Json) -> (r: (Option<String>, Option<String>))
    ensures
        (match r.0 {
            Some(s) => Some(s@),
            None => None,
        }, match r.1 {
            Some(s) => Some(s@),
            None => None,
        }) == delta_parts(*v),
{
    let kc = chars_of("choices");
    let a = match get_exec(v, kc.as_slice()) {
        Some(Json::Array(a)) => a,
        _ => {
            return (None, None);
        },
    };
    if a.len() == 0 {
        return (None, None);
    }
    let c = &a[0];
    let kd = chars_of("delta");
    match get_exec(c, kd.as_slice()) {
        Some(d) => {
            let content = nonempty_str_exec(d, "content");
            if content.is_some() {
                return (content, None);
            }
            let text = nonempty_str_exec(d, "text");
            if text.is_some() {
                return (text, None);
            }
            let kcontent = chars_of("content");
            match get_exec(d, kcontent.as_slice()) {
                Some(Json::Array(parts)) => {
                    let out = parts_text_exec(parts);
                    if out.len() > 0 {
                        return (Some(string_of(out.as_slice())), None);
                    }
                },
                _ => {},
            }
            let reasoning = nonempty_str_exec(d, "reasoning_content");
            if reasoning.is_some() {
                return (None, reasoning);
            }
            (None, None)
        },
        None => {
            let km = chars_of("message");
            let kcontent = chars_of("content");
            let content: Vec<char> = match get_exec(c, km.as_slice()) {
                Some(m) => match get_exec(m, kcontent.as_slice()) {
                    Some(Json::Str(s)) => chars_of(s.as_str()),
                    _ => Vec::new(),
                },
                None => Vec::new(),
            };
            let t = trim_chars(content.as_slice());
            if t.len() == 0 {
                (None, None)
            } else {
                (Some(string_of(content.as_slice())), None)
            }
        },
    }
}


/// The first JSON object in a reply: the whole unfenced, trimmed reply when
/// it is delimited as an object, else its first `{` ... last `}` span.
pub open spec fn json_object_of(text: Seq<char>) -> Option<Json> {
    let t = strip_fence(trim(text));
    if t.len() > 0 && t[0] == '{' && t.last() == '}' {
        json_parse(t)
    } else {
        match enclosed(t, '{', '}') {
            Some(c) => json_parse(c),
            None => None,
        }
    }
}

/// The first JSON object in a reply.
pub fn try_parse_json_object(text: &str) -> (r: Option<Json>)
    ensures
        r == json_object_of(text@),
{
    let v = chars_of(text);
    let tt = trim_chars(v.as_slice());
    let t = strip_fence_chars(tt.as_slice());
    let n = t.len();
    if n > 0 && t[0] == '{' && t[n - 1] == '}' {
        return parse_json(t.as_slice());
    }
    match crate::response::enclosed_exec(t.as_slice(), '{', '}') {
        Some(c) => parse_json(c.as_slice()),
        None => None,
    }
}

/// What one line of an event stream gives: whether it ends the stream, and
/// the content and reasoning it carries.
pub open spec fn event_line(line: Seq<char>) -> (bool, Seq<char>, Seq<char>) {
    let t = trim(line);
    if !starts_with(t, "data:"@) {
        (false, Seq::empty(), Seq::empty())
    } else {
        let payload = trim(t.subrange(5, t.len() as int));
        if payload == "[DONE]"@ {
            (true, Seq::empty(), Seq::empty())
        } else if !(payload.len() > 0 && payload[0] == '{' && payload.last() == '}') {
            (false, Seq::empty(), Seq::empty())
        } else {
            match json_parse(payload) {
                Some(v) => {
                    let (c, r) = delta_parts(v);
                    (
                        false,
                        match c {
                            Some(x) => x,
                            None => Seq::empty(),
                        },
                        match r {
                            Some(x) => x,
                            None => Seq::empty(),
                        },
                    )
                },
                None => (false, Seq::empty(), Seq::empty()),
            }
        }
    }
}

/// The content and reasoning of an event stream, line by line up to `[DONE]`.
pub open spec fn stream_parts(t: Seq<char>) -> (Seq<char>, Seq<char>)
    decreases t.len(),
{
    let nl = find_char(t, '\n');
    let line = if 0 <= nl < t.len() {
        t.subrange(0, nl)
    } else {
        t
    };
    let ev = event_line(line);
    if ev.0 {
        (Seq::empty(), Seq::empty())
    } else if 0 <= nl < t.len() {
        let rest = stream_parts(t.subrange(nl + 1, t.len() as int));
        (ev.1 + rest.0, ev.2 + rest.1)
    } else {
        (ev.1, ev.2)
    }
}

/// The text of an event stream: its content, else its reasoning, when not blank.
pub open spec fn stream_result(text: Seq<char>) -> Result<Seq<char>, Seq<char>> {
    let (c, r) = stream_parts(text);
    if trim(c).len() > 0 {
        Ok(c)
    } else if trim(r).len() > 0 {
        Ok(r)
    } else {
        Err("openai event-stream returned no content"@)
    }
}

fn event_line_exec(line: &[char]) -> (r: (bool, Vec<char>, Vec<char>))
    ensures
        (r.0, r.1@, r.2@) == event_line(line@),
{
    let t = trim_chars(line);
    let prefix = chars_of("data:");
    proof {
        reveal_strlit("data:");
    }
    if !occurs_at_exec(t.as_slice(), prefix.as_slice(), 0) {
        return (false, Vec::new(), Vec::new());
    }
    let tl = t.len();
    let data = slice_chars(t.as_slice(), 5, tl);
    let payload = trim_chars(data.as_slice());
    let done = chars_of("[DONE]");
    if crate::text::same_chars(payload.as_slice(), done.as_slice()) {
        return (true, Vec::new(), Vec::new());
    }
    let n = payload.len();
    if !(n > 0 && payload[0] == '{' && payload[n - 1] == '}') {
        return (false, Vec::new(), Vec::new());
    }
    match parse_json(payload.as_slice()) {
        Some(v) => {
            let (c, r) = extract_openai_chat_delta_parts(&v);
            let cv = match c {
                Some(x) => chars_of(x.as_str()),
                None => Vec::new(),
            };
            let rv = match r {
                Some(x) => chars_of(x.as_str()),
                None => Vec::new(),
            };
            (false, cv, rv)
        },
        None => (false, Vec::new(), Vec::new()),
    }
}

/// The text that a server-sent event stream delivers: the content of its
/// `data:` chunks up to `[DONE]`, or, when that is blank, their reasoning.
pub fn parse_openai_sse_text(text: &str) -> (r: Result<String, String>)
    ensures
        match r {
            Ok(s) => stream_result(text@) == Ok::<Seq<char>, Seq<char>>(s@),
            Err(e) => stream_result(text@) == Err::<Seq<char>, Seq<char>>(e@),
        },
{
    let mut rest = chars_of(text);
    let mut content: Vec<char> = Vec::new();
    let mut reasoning: Vec<char> = Vec::new();
    loop
        invariant_except_break
            (content@ + stream_parts(rest@).0, reasoning@ + stream_parts(rest@).1) == stream_parts(text@),
        ensures
            (content@, reasoning@) == stream_parts(text@),
        decreases rest@.len(),
    {
        let rl = rest.len();
        let nl = find_char_exec(rest.as_slice(), '\n');
        let line = match nl {
            Some(k) => slice_chars(rest.as_slice(), 0, k),
            None => slice_chars(rest.as_slice(), 0, rl),
        };
        assert(nl is None ==> line@ =~= rest@);
        let ev = event_line_exec(line.as_slice());
        if ev.0 {
            assert(stream_parts(rest@) == (Seq::<char>::empty(), Seq::<char>::empty()));
            assert(content@ =~= content@ + Seq::<char>::empty());
            assert(reasoning@ =~= reasoning@ + Seq::<char>::empty());
            break;
        }
        let c2 = concat_chars(content.as_slice(), ev.1.as_slice());
        let r2 = concat_chars(reasoning.as_slice(), ev.2.as_slice());
        match nl {
            Some(k) => {
                let next = slice_chars(rest.as_slice(), k + 1, rl);
                assert(c2@ + stream_parts(next@).0 =~= content@ + stream_parts(rest@).0);
                assert(r2@ + stream_parts(next@).1 =~= reasoning@ + stream_parts(rest@).1);
                content = c2;
                reasoning = r2;
                rest = next;
            },
            None => {
                assert(stream_parts(rest@) == (ev.1@, ev.2@));
                content = c2;
                reasoning = r2;
                break;
            },
        }
    }
    let ct = trim_chars(content.as_slice());
    if ct.len() > 0 {
        return Ok(string_of(content.as_slice()));
    }
    let rt = trim_chars(reasoning.as_slice());
    if rt.len() > 0 {
        return Ok(string_of(reasoning.as_slice()));
    }
    Err(String::from_str("openai event-stream returned no content"))
}


/// The first `n` characters of `s`, or all of it when shorter.
pub open spec fn take(s: Seq<char>, n: int) -> Seq<char> {
    s.subrange(0, if s.len() < n { s.len() as int } else { n })
}

fn take_exec(v: &[char], n: usize) -> (r: String)
    ensures
        r@ == take(v@, n as int),
{
    let k = if v.len() < n {
        v.len()
    } else {
        n
    };
    let h = slice_chars(v, 0, k);
    string_of(h.as_slice())
}

/// The content of a whole reply's first choice.
pub open spec fn message_content(v: Json) -> Seq<char> {
    match get(v, "choices"@) {
        Some(Json::Array(a)) if a@.len() > 0 => match get(a@[0], "message"@) {
            Some(m) => opt_str_of(get(m, "content"@)),
            None => Seq::empty(),
        },
        _ => Seq::empty(),
    }
}

/// What a reply of the chat service yields: its text, or the failure. A
/// failed status fails with the body; an event stream (by its content type
/// or its first line) is read as one; HTML fails with a hint on the base
/// URL; a JSON document (or the first object in the body) gives its first
/// choice's content, which must not be blank.
pub open spec fn reply_text(
    ok: bool,
    status: Seq<char>,
    content_type: Seq<char>,
    body: Seq<char>,
) -> Result<Seq<char>, Seq<char>> {
    let t = crate::text::trim_start(body);
    if !ok {
        Err("openai request failed: http "@ + status + "\n"@ + body)
    } else if crate::text::contains(lower_of(content_type), "text/event-stream"@) {
        stream_result(body)
    } else if t.len() > 0 && t[0] == '<' {
        Err(
            "openai response is not JSON (looks like HTML). Check baseUrl (should end with /v1).\ncontent-type: "@
                + content_type + "\nbody (first 200 chars):\n"@ + take(t, 200),
        )
    } else if starts_with(t, "data:"@) {
        stream_result(body)
    } else {
        let doc = if json_parse(body) is Some {
            json_parse(body)
        } else {
            json_object_of(body)
        };
        match doc {
            None => Err(
                "parse openai json failed\ncontent-type: "@ + content_type
                    + "\nbody (first 400 chars):\n"@ + take(body, 400),
            ),
            Some(d) => if trim(message_content(d)).len() == 0 {
                Err("openai response missing content"@)
            } else {
                Ok(message_content(d))
            },
        }
    }
}

/// Reads a reply of the chat service, given whether its status was a
/// success, the status line, the content type and the body.
pub fn chat_reply_content(ok: bool, status: &str, content_type: &str, body: &str) -> (r: Result<
    String,
    String,
>)
    ensures
        match r {
            Ok(s) => reply_text(ok, status@, content_type@, body@) == Ok::<Seq<char>, Seq<char>>(s@),
            Err(e) => reply_text(ok, status@, content_type@, body@) == Err::<Seq<char>, Seq<char>>(e@),
        },
{
    if !ok {
        let mut m = String::from_str("openai request failed: http ");
        m.append(status);
        m.append("\n");
        m.append(body);
        return Err(m);
    }
    let ct = lowercase(content_type);
    if crate::text::str_contains(ct.as_str(), "text/event-stream") {
        return parse_openai_sse_text(body);
    }
    let bv = chars_of(body);
    let t = crate::text::trim_start_chars(bv.as_slice());
    if t.len() > 0 && t[0] == '<' {
        let mut m = String::from_str(
            "openai response is not JSON (looks like HTML). Check baseUrl (should end with /v1).\ncontent-type: ",
        );
        m.append(content_type);
        m.append("\nbody (first 200 chars):\n");
        let head = take_exec(t.as_slice(), 200);
        m.append(head.as_str());
        return Err(m);
    }
    let data = chars_of("data:");
    if occurs_at_exec(t.as_slice(), data.as_slice(), 0) {
        return parse_openai_sse_text(body);
    }
    let doc = match parse_json(bv.as_slice()) {
        Some(d) => Some(d),
        None => try_parse_json_object(body),
    };
    match doc {
        None => {
            let mut m = String::from_str("parse openai json failed\ncontent-type: ");
            m.append(content_type);
            m.append("\nbody (first 400 chars):\n");
            let head = take_exec(bv.as_slice(), 400);
            m.append(head.as_str());
            Err(m)
        },
        Some(d) => {
            let kc = chars_of("choices");
            let km = chars_of("message");
            let kt = chars_of("content");
            let content: Vec<char> = match get_exec(&d, kc.as_slice()) {
                Some(Json::Array(a)) => {
                    if a.len() > 0 {
                        match get_exec(&a[0], km.as_slice()) {
                            Some(m) => match get_exec(m, kt.as_slice()) {
                                Some(Json::Str(s)) => chars_of(s.as_str()),
                                _ => Vec::new(),
                            },
                            None => Vec::new(),
                        }
                    } else {
                        Vec::new()
                    }
                },
                _ => Vec::new(),
            };
            let tc = trim_chars(content.as_slice());
            if tc.len() == 0 {
                Err(String::from_str("openai response missing content"))
            } else {
                Ok(string_of(content.as_slice()))
            }
        },
    }
}

} // verus!
