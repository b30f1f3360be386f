//! Reading `(id, text)` pairs out of a text-generation service's reply:
//! strict JSON, JSON salvaged from a truncated reply, or one JSON value per line.

use vstd::prelude::*;
use vstd::string::StringExecFns;
use crate::text::{
    chars_of, concat_chars, contains, contains_chars, find_char, find_char_exec, occurs_at_exec,
    rfind_char, rfind_char_exec, rfind_seq, rfind_seq_exec, same_chars, slice_chars, starts_with,
    string_of, trim, trim_chars, trim_end,
};

verus! {

/// A JSON document as far as this library reads it. A number carries its
/// value when it is an integer that fits in `i64`, and nothing otherwise.
pub enum Json {
    Null,
    Bool(bool),
    Number(Option<i64>),
    Str(String),
    Array(Vec<Json>),
    Object(Vec<(String, Json)>),
}

#[verifier::external_type_specification]
#[verifier::external_body]
pub struct ExJsonValue(serde_json::Value);

/// The document that `serde_json::from_str` reads from `s`, if `s` is one
/// well-formed JSON value; object members come in the order that
/// `serde_json::Map` iterates them.
pub uninterp spec fn json_parse(s: Seq<char>) -> Option<Json>;

/// Relies on `serde_json::Value`'s variants and `Number::as_i64`: a
/// one-for-one copy of the value.
#[verifier::external_body]
fn json_from_value(v: &serde_json::Value) -> Json {
    match v {
        serde_json::Value::Null => Json::Null,
        serde_json::Value::Bool(b) => Json::Bool(*b),
        serde_json::Value::Number(n) => Json::Number(n.as_i64()),
        serde_json::Value::String(s) => Json::Str(s.clone()),
        serde_json::Value::Array(a) => Json::Array(a.iter().map(json_from_value).collect()),
        serde_json::Value::Object(m) => Json::Object(
            m.iter().map(|(k, x)| (k.clone(), json_from_value(x))).collect(),
        ),
    }
}

/// Relies on `serde_json::from_str::<serde_json::Value>`: the document in
/// `s`, or `None` when `s` is not one well-formed JSON value.
#[verifier::external_body]
pub(crate) fn parse_json(s: &[char]) -> (r: Option<Json>)
    ensures
        r == json_parse(s@),
{
    let text: String = s.iter().collect();
    serde_json::from_str::<serde_json::Value>(&text).ok().map(|v| json_from_value(&v))
}


/// A markdown code fence.
pub open spec fn fence() -> Seq<char> {
    seq!['`', '`', '`']
}

/// The body of a reply wrapped in a markdown code fence: the lines after the
/// opening fence line, cut at the last closing fence, trimmed. Text that does
/// not open with a fence is returned as it is.
pub open spec fn strip_fence(t: Seq<char>) -> Seq<char> {
    if starts_with(t, fence()) {
        let nl = find_char(t, '\n');
        let body = if nl < 0 {
            Seq::<char>::empty()
        } else {
            t.subrange(nl + 1, t.len() as int)
        };
        let k = rfind_seq(body, fence());
        trim(
            if k < 0 {
                body
            } else {
                body.subrange(0, k)
            },
        )
    } else {
        t
    }
}

fn fence_chars() -> (r: Vec<char>)
    ensures
        r@ == fence(),
{
    let r = vec!['`', '`', '`'];
    assert(r@ =~= fence());
    r
}

/// `strip_fence` on characters.
pub fn strip_fence_chars(t: &[char]) -> (r: Vec<char>)
    ensures
        r@ == strip_fence(t@),
{
    let f = fence_chars();
    if !occurs_at_exec(t, f.as_slice(), 0) {
        return slice_chars(t, 0, t.len());
    }
    let tl = t.len();
    let body = match find_char_exec(t, '\n') {
        None => Vec::new(),
        Some(nl) => slice_chars(t, nl + 1, tl),
    };
    assert(body@ =~= (if find_char(t@, '\n') < 0 {
        Seq::<char>::empty()
    } else {
        t@.subrange(find_char(t@, '\n') + 1, t@.len() as int)
    }));
    match rfind_seq_exec(body.as_slice(), f.as_slice()) {
        None => trim_chars(body.as_slice()),
        Some(k) => {
            let cut = slice_chars(body.as_slice(), 0, k);
            trim_chars(cut.as_slice())
        },
    }
}

/// The text between the first `open` and the last `close`, both included,
/// when the first comes before the last.
pub open spec fn enclosed(t: Seq<char>, open: char, close: char) -> Option<Seq<char>> {
    let s = find_char(t, open);
    let e = rfind_char(t, close);
    if 0 <= s && s < e {
        Some(t.subrange(s, e + 1))
    } else {
        None
    }
}

pub(crate) fn enclosed_exec(t: &[char], open: char, close: char) -> (r: Option<Vec<char>>)
    ensures
        match r {
            Some(c) => enclosed(t@, open, close) == Some(c@),
            None => enclosed(t@, open, close) is None,
        },
{
    let tl = t.len();
    match (find_char_exec(t, open), rfind_char_exec(t, close)) {
        (Some(s), Some(e)) => {
            if s < e {
                Some(slice_chars(t, s, e + 1))
            } else {
                None
            }
        },
        _ => None,
    }
}

/// The document enclosed in `t` by `open` ... `close`, when it parses.
pub open spec fn parse_enclosed(t: Seq<char>, open: char, close: char) -> Option<Json> {
    match enclosed(t, open, close) {
        Some(c) => json_parse(c),
        None => None,
    }
}

fn parse_enclosed_exec(t: &[char], open: char, close: char) -> (r: Option<Json>)
    ensures
        r == parse_enclosed(t@, open, close),
{
    match enclosed_exec(t, open, close) {
        Some(c) => parse_json(c.as_slice()),
        None => None,
    }
}

/// The JSON value in a reply: the whole (unfenced, trimmed) reply when it is
/// delimited as an object or array, else the first `{` ... last `}` span that
/// parses, else the first `[` ... last `]` span that parses.
pub open spec fn json_value_of(text: Seq<char>) -> Option<Json> {
    let t = strip_fence(trim(text));
    if t.len() == 0 {
        None
    } else if (t[0] == '{' && t.last() == '}') || (t[0] == '[' && t.last() == ']') {
        json_parse(t)
    } else if parse_enclosed(t, '{', '}') is Some {
        parse_enclosed(t, '{', '}')
    } else {
        parse_enclosed(t, '[', ']')
    }
}

/// `json_value_of` on characters.
pub fn json_value_in(text: &[char]) -> (r: Option<Json>)
    ensures
        r == json_value_of(text@),
{
    let tt = trim_chars(text);
    let t = strip_fence_chars(tt.as_slice());
    let n = t.len();
    if n == 0 {
        return None;
    }
    if (t[0] == '{' && t[n - 1] == '}') || (t[0] == '[' && t[n - 1] == ']') {
        return parse_json(t.as_slice());
    }
    let a = parse_enclosed_exec(t.as_slice(), '{', '}');
    if a.is_some() {
        return a;
    }
    parse_enclosed_exec(t.as_slice(), '[', ']')
}

/// What closes a truncated object whose array is still open.
pub open spec fn close_object_array() -> Seq<char> {
    seq!['\n', ' ', ' ', ']', '\n', '}']
}

/// The document recovered from a reply cut off mid-stream: everything up to
/// the last complete `}`, closed by the brackets that its first character
/// implies (`{` closes an array, then the object, or only the object; `[`
/// closes the array).
pub open spec fn salvaged(text: Seq<char>) -> Option<Json> {
    let t = trim(text);
    let last = rfind_char(t, '}');
    if t.len() == 0 || last < 0 {
        None
    } else {
        let prefix = trim_end(t.subrange(0, last + 1));
        if t[0] == '{' {
            let a = if contains(prefix, seq!['[']) {
                json_parse(prefix + close_object_array())
            } else {
                None
            };
            if a is Some {
                a
            } else {
                json_parse(prefix + seq!['\n', '}'])
            }
        } else if t[0] == '[' {
            json_parse(prefix + seq!['\n', ']'])
        } else {
            None
        }
    }
}

/// The JSON document in a reply, salvaged when it was cut off.
pub open spec fn lenient_json(text: Seq<char>) -> Option<Json> {
    if json_value_of(text) is Some {
        json_value_of(text)
    } else {
        salvaged(text)
    }
}

/// `lenient_json` on characters.
pub fn lenient_json_in(text: &[char]) -> (r: Option<Json>)
    ensures
        r == lenient_json(text@),
{
    let v = json_value_in(text);
    if v.is_some() {
        return v;
    }
    let t = trim_chars(text);
    if t.len() == 0 {
        return None;
    }
    let last = match rfind_char_exec(t.as_slice(), '}') {
        Some(i) => i,
        None => {
            return None;
        },
    };
    let head = slice_chars(t.as_slice(), 0, last + 1);
    let k = crate::text::trim_end_len(head.as_slice());
    let prefix = slice_chars(head.as_slice(), 0, k);
    if t[0] == '{' {
        let open = vec!['['];
        assert(open@ =~= seq!['[']);
        if contains_chars(prefix.as_slice(), open.as_slice()) {
            let tail = vec!['\n', ' ', ' ', ']', '\n', '}'];
            assert(tail@ =~= close_object_array());
            let cand = concat_chars(prefix.as_slice(), tail.as_slice());
            let a = parse_json(cand.as_slice());
            if a.is_some() {
                return a;
            }
        }
        let tail = vec!['\n', '}'];
        assert(tail@ =~= seq!['\n', '}']);
        let cand = concat_chars(prefix.as_slice(), tail.as_slice());
        parse_json(cand.as_slice())
    } else if t[0] == '[' {
        let tail = vec!['\n', ']'];
        assert(tail@ =~= seq!['\n', ']']);
        let cand = concat_chars(prefix.as_slice(), tail.as_slice());
        parse_json(cand.as_slice())
    } else {
        None
    }
}


/// The characters of a JSON string; empty for any other value.
pub open spec fn str_of(v: Json) -> Seq<char> {
    match v {
        Json::Str(s) => s@,
        _ => Seq::empty(),
    }
}

pub open spec fn opt_str_of(v: Option<Json>) -> Seq<char> {
    match v {
        Some(x) => str_of(x),
        None => Seq::empty(),
    }
}

fn str_chars(v: &Json) -> (r: Vec<char>)
    ensures
        r@ == str_of(*v),
{
    match v {
        Json::Str(s) => chars_of(s.as_str()),
        _ => Vec::new(),
    }
}

fn opt_str_chars(v: Option<&Json>) -> (r: Vec<char>)
    ensures
        r@ == opt_str_of(
            match v {
                Some(x) => Some(*x),
                None => None,
            },
        ),
{
    match v {
        Some(x) => str_chars(x),
        None => Vec::new(),
    }
}

/// The value of the first member named `key`.
pub open spec fn member(es: Seq<(String, Json)>, key: Seq<char>) -> Option<Json>
    decreases es.len(),
{
    if es.len() == 0 {
        None
    } else if es[0].0@ == key {
        Some(es[0].1)
    } else {
        member(es.drop_first(), key)
    }
}

/// The member `key` of an object; `None` for any other value.
pub open spec fn get(v: Json, key: Seq<char>) -> Option<Json> {
    match v {
        Json::Object(es) => member(es@, key),
        _ => None,
    }
}

pub(crate) fn get_exec<'a>(v: &'a Json, key: &[char]) -> (r: Option<&'a Json>)
    ensures
        match r {
            Some(x) => get(*v, key@) == Some(*x),
            None => get(*v, key@) is None,
        },
{
    match v {
        Json::Object(es) => {
            let mut i: usize = 0;
            assert(es@.subrange(0, es@.len() as int) =~= es@);
            while i < es.len()
                invariant
                    i <= es@.len(),
                    get(*v, key@) == member(es@, key@),
                    member(es@, key@) == member(es@.subrange(i as int, es@.len() as int), key@),
                decreases es@.len() - i,
            {
                let k = chars_of(es[i].0.as_str());
                assert(es@.subrange(i as int, es@.len() as int).drop_first() =~= es@.subrange(
                    i + 1,
                    es@.len() as int,
                ));
                assert(es@.subrange(i as int, es@.len() as int)[0] == es@[i as int]);
                if same_chars(k.as_slice(), key) {
                    assert(member(es@.subrange(i as int, es@.len() as int), key@) == Some(
                        es@[i as int].1,
                    ));
                    assert(get(*v, key@) == member(es@, key@));
                    let x = &es[i].1;
                    assert(*x == es@[i as int].1);
                    return Some(x);
                }
                i = i + 1;
            }
            None
        },
        _ => None,
    }
}

/// The value under the first of `keys` that `v` has.
pub open spec fn first_present(v: Json, keys: Seq<Seq<char>>) -> Option<Json>
    decreases keys.len(),
{
    if keys.len() == 0 {
        None
    } else if get(v, keys[0]) is Some {
        get(v, keys[0])
    } else {
        first_present(v, keys.drop_first())
    }
}

pub open spec fn keys_view(ks: Seq<Vec<char>>) -> Seq<Seq<char>> {
    ks.map_values(|k: Vec<char>| k@)
}

fn first_present_exec<'a>(v: &'a Json, keys: &Vec<Vec<char>>) -> (r: Option<&'a Json>)
    ensures
        match r {
            Some(x) => first_present(*v, keys_view(keys@)) == Some(*x),
            None => first_present(*v, keys_view(keys@)) is None,
        },
{
    let mut i: usize = 0;
    assert(keys_view(keys@).subrange(0, keys@.len() as int) =~= keys_view(keys@));
    while i < keys.len()
        invariant
            i <= keys@.len(),
            first_present(*v, keys_view(keys@)) == first_present(
                *v,
                keys_view(keys@).subrange(i as int, keys@.len() as int),
            ),
        decreases keys@.len() - i,
    {
        assert(keys_view(keys@).subrange(i as int, keys@.len() as int).drop_first()
            =~= keys_view(keys@).subrange(i + 1, keys@.len() as int));
        assert(keys_view(keys@).subrange(i as int, keys@.len() as int)[0] == keys@[i as int]@);
        let r = get_exec(v, keys[i].as_slice());
        if r.is_some() {
            return r;
        }
        i = i + 1;
    }
    None
}

/// The names under which an item may carry its text.
pub open spec fn text_keys() -> Seq<Seq<char>> {
    seq![
        "text"@,
        "translation"@,
        "translated"@,
        "translatedText"@,
        "translated_text"@,
        "output"@,
        "result"@,
    ]
}

fn text_keys_exec() -> (r: Vec<Vec<char>>)
    ensures
        keys_view(r@) == text_keys(),
{
    let r = vec![
        chars_of("text"),
        chars_of("translation"),
        chars_of("translated"),
        chars_of("translatedText"),
        chars_of("translated_text"),
        chars_of("output"),
        chars_of("result"),
    ];
    assert(keys_view(r@) =~= text_keys());
    r
}

/// The names under which a document may carry its list of items.
pub open spec fn root_keys() -> Seq<Seq<char>> {
    seq!["segments"@, "translations"@, "results"@, "s"@]
}

fn root_keys_exec() -> (r: Vec<Vec<char>>)
    ensures
        keys_view(r@) == root_keys(),
{
    let r = vec![
        chars_of("segments"),
        chars_of("translations"),
        chars_of("results"),
        chars_of("s"),
    ];
    assert(keys_view(r@) =~= root_keys());
    r
}

/// Members that never hold the translated text.
pub open spec fn skipped_key(k: Seq<char>) -> bool {
    k == "id"@ || k == "start"@ || k == "end"@ || k == "language"@
}

/// The first member, in order, that is not a skipped one and holds a
/// non-blank string: that string, trimmed; empty when there is none.
pub open spec fn fallback_text(es: Seq<(String, Json)>) -> Seq<char>
    decreases es.len(),
{
    if es.len() == 0 {
        Seq::empty()
    } else if !skipped_key(es[0].0@) && es[0].1 is Str && trim(str_of(es[0].1)).len() > 0 {
        trim(str_of(es[0].1))
    } else {
        fallback_text(es.drop_first())
    }
}

fn fallback_text_exec(es: &Vec<(String, Json)>) -> (r: Vec<char>)
    ensures
        r@ == fallback_text(es@),
{
    let skip = vec![chars_of("id"), chars_of("start"), chars_of("end"), chars_of("language")];
    let mut i: usize = 0;
    assert(es@.subrange(0, es@.len() as int) =~= es@);
    while i < es.len()
        invariant
            i <= es@.len(),
            skip@.len() == 4,
            skip@[0]@ == "id"@,
            skip@[1]@ == "start"@,
            skip@[2]@ == "end"@,
            skip@[3]@ == "language"@,
            fallback_text(es@) == fallback_text(es@.subrange(i as int, es@.len() as int)),
        decreases es@.len() - i,
    {
        assert(es@.subrange(i as int, es@.len() as int).drop_first() =~= es@.subrange(
            i + 1,
            es@.len() as int,
        ));
        assert(es@.subrange(i as int, es@.len() as int)[0] == es@[i as int]);
        let k = chars_of(es[i].0.as_str());
        let skipped = same_chars(k.as_slice(), skip[0].as_slice()) || same_chars(
            k.as_slice(),
            skip[1].as_slice(),
        ) || same_chars(k.as_slice(), skip[2].as_slice()) || same_chars(
            k.as_slice(),
            skip[3].as_slice(),
        );
        if !skipped {
            if let Json::Str(sv) = &es[i].1 {
                let c = chars_of(sv.as_str());
                let t = trim_chars(c.as_slice());
                if t.len() > 0 {
                    return t;
                }
            }
        }
        i = i + 1;
    }
    Vec::new()
}

/// The `(id, text)` pair that an item carries, both trimmed and non-blank:
/// from a list its first two entries; from an object its `id` and the first
/// text member present, or with `scan`, when that is blank, `fallback_text`.
pub open spec fn item_pair(it: Json, scan: bool) -> Option<(Seq<char>, Seq<char>)> {
    match it {
        Json::Array(a) => {
            if a@.len() >= 2 {
                let id = trim(str_of(a@[0]));
                let tx = trim(str_of(a@[1]));
                if id.len() > 0 && tx.len() > 0 {
                    Some((id, tx))
                } else {
                    None
                }
            } else {
                None
            }
        },
        _ => {
            let id = trim(opt_str_of(get(it, "id"@)));
            let t0 = trim(opt_str_of(first_present(it, text_keys())));
            let tx = if t0.len() == 0 && scan {
                match it {
                    Json::Object(es) => fallback_text(es@),
                    _ => Seq::empty(),
                }
            } else {
                t0
            };
            if id.len() > 0 && tx.len() > 0 {
                Some((id, tx))
            } else {
                None
            }
        },
    }
}

fn item_pair_exec(it: &Json, scan: bool) -> (r: Option<(Vec<char>, Vec<char>)>)
    ensures
        match r {
            Some(p) => item_pair(*it, scan) == Some((p.0@, p.1@)),
            None => item_pair(*it, scan) is None,
        },
{
    match it {
        Json::Array(a) => {
            if a.len() >= 2 {
                let i0 = str_chars(&a[0]);
                let i1 = str_chars(&a[1]);
                let id = trim_chars(i0.as_slice());
                let tx = trim_chars(i1.as_slice());
                if id.len() > 0 && tx.len() > 0 {
                    Some((id, tx))
                } else {
                    None
                }
            } else {
                None
            }
        },
        _ => {
            let idk = chars_of("id");
            let idv = opt_str_chars(get_exec(it, idk.as_slice()));
            let id = trim_chars(idv.as_slice());
            let keys = text_keys_exec();
            let tv = opt_str_chars(first_present_exec(it, &keys));
            let t0 = trim_chars(tv.as_slice());
            let tx = if t0.len() == 0 && scan {
                match it {
                    Json::Object(es) => fallback_text_exec(es),
                    _ => Vec::new(),
                }
            } else {
                t0
            };
            if id.len() > 0 && tx.len() > 0 {
                Some((id, tx))
            } else {
                None
            }
        },
    }
}

/// The pairs carried by the first `n` items.
pub open spec fn items_pairs(items: Seq<Json>, n: int) -> Seq<(Seq<char>, Seq<char>)>
    decreases n,
{
    if n <= 0 {
        Seq::empty()
    } else {
        let prev = items_pairs(items, n - 1);
        match item_pair(items[n - 1], true) {
            Some(p) => prev.push(p),
            None => prev,
        }
    }
}

/// The view of a list of pairs.
pub open spec fn pairs_view(v: Seq<(String, String)>) -> Seq<(Seq<char>, Seq<char>)> {
    v.map_values(|p: (String, String)| (p.0@, p.1@))
}

proof fn lemma_pairs_view_push(v: Seq<(String, String)>, x: (String, String))
    ensures
        pairs_view(v.push(x)) == pairs_view(v).push((x.0@, x.1@)),
{
    assert(pairs_view(v.push(x)) =~= pairs_view(v).push((x.0@, x.1@)));
}

fn items_pairs_exec(items: &Vec<Json>) -> (r: Vec<(String, String)>)
    ensures
        pairs_view(r@) == items_pairs(items@, items@.len() as int),
{
    let mut out: Vec<(String, String)> = Vec::new();
    let mut i: usize = 0;
    while i < items.len()
        invariant
            i <= items@.len(),
            pairs_view(out@) == items_pairs(items@, i as int),
        decreases items@.len() - i,
    {
        match item_pair_exec(&items[i], true) {
            Some(p) => {
                let x = (string_of(p.0.as_slice()), string_of(p.1.as_slice()));
                proof {
                    lemma_pairs_view_push(out@, x);
                }
                out.push(x);
            },
            None => {},
        }
        i = i + 1;
    }
    out
}

/// The items of a document: the document itself when it is a list, else the
/// list under the first root key present.
pub open spec fn doc_items(v: Json) -> Option<Seq<Json>> {
    match v {
        Json::Array(a) => Some(a@),
        _ => match first_present(v, root_keys()) {
            Some(Json::Array(a)) => Some(a@),
            _ => None,
        },
    }
}

fn doc_items_exec(v: &Json) -> (r: Option<&Vec<Json>>)
    ensures
        match r {
            Some(a) => doc_items(*v) == Some(a@),
            None => doc_items(*v) is None,
        },
{
    match v {
        Json::Array(a) => Some(a),
        _ => {
            let keys = root_keys_exec();
            match first_present_exec(v, &keys) {
                Some(Json::Array(a)) => Some(a),
                _ => None,
            }
        },
    }
}


/// The pair on one line of newline-delimited JSON: the trimmed line when it
/// opens as an object or list, else its first `{` ... last `}` span.
pub open spec fn line_pair(line: Seq<char>) -> Option<(Seq<char>, Seq<char>)> {
    let s = trim(line);
    if s.len() == 0 {
        None
    } else {
        let cand = if s[0] == '{' || s[0] == '[' {
            Some(s)
        } else {
            enclosed(s, '{', '}')
        };
        match cand {
            Some(c) => match json_parse(c) {
                Some(v) => item_pair(v, false),
                None => None,
            },
            None => None,
        }
    }
}

fn line_pair_exec(line: &[char]) -> (r: Option<(Vec<char>, Vec<char>)>)
    ensures
        match r {
            Some(p) => line_pair(line@) == Some((p.0@, p.1@)),
            None => line_pair(line@) is None,
        },
{
    let s = trim_chars(line);
    if s.len() == 0 {
        return None;
    }
    let cand = if s[0] == '{' || s[0] == '[' {
        Some(s)
    } else {
        enclosed_exec(s.as_slice(), '{', '}')
    };
    match cand {
        Some(c) => match parse_json(c.as_slice()) {
            Some(v) => item_pair_exec(&v, false),
            None => None,
        },
        None => None,
    }
}

pub open spec fn opt_seq(p: Option<(Seq<char>, Seq<char>)>) -> Seq<(Seq<char>, Seq<char>)> {
    match p {
        Some(x) => seq![x],
        None => Seq::empty(),
    }
}

/// The pairs on the lines of `t`, line by line; lines without one are skipped.
pub open spec fn lines_pairs(t: Seq<char>) -> Seq<(Seq<char>, Seq<char>)>
    decreases t.len(),
{
    let nl = find_char(t, '\n');
    if 0 <= nl < t.len() {
        opt_seq(line_pair(t.subrange(0, nl))) + lines_pairs(t.subrange(nl + 1, t.len() as int))
    } else {
        opt_seq(line_pair(t))
    }
}

/// The pairs of a reply read as newline-delimited JSON, inside a code fence or not.
pub open spec fn jsonl_pairs(raw: Seq<char>) -> Seq<(Seq<char>, Seq<char>)> {
    lines_pairs(strip_fence(trim(raw)))
}

fn push_opt_pair(out: &mut Vec<(String, String)>, p: Option<(Vec<char>, Vec<char>)>)
    ensures
        pairs_view(final(out)@) == pairs_view(old(out)@) + opt_seq(
            match p {
                Some(x) => Some((x.0@, x.1@)),
                None => None,
            },
        ),
{
    match p {
        Some(x) => {
            let e = (string_of(x.0.as_slice()), string_of(x.1.as_slice()));
            proof {
                lemma_pairs_view_push(out@, e);
            }
            out.push(e);
            assert(pairs_view(out@) =~= pairs_view(old(out)@) + seq![(x.0@, x.1@)]);
        },
        None => {
            assert(pairs_view(out@) =~= pairs_view(old(out)@) + Seq::empty());
        },
    }
}

/// The pairs of a reply read as newline-delimited JSON.
pub fn parse_translation_pairs_jsonl(raw: &str) -> (r: Vec<(String, String)>)
    ensures
        pairs_view(r@) == jsonl_pairs(raw@),
{
    let rc = chars_of(raw);
    let tt = trim_chars(rc.as_slice());
    let mut rest = strip_fence_chars(tt.as_slice());
    let mut out: Vec<(String, String)> = Vec::new();
    loop
        invariant
            pairs_view(out@) + lines_pairs(rest@) == jsonl_pairs(raw@),
        decreases rest@.len(),
    {
        let ghost before = out@;
        let rl = rest.len();
        match find_char_exec(rest.as_slice(), '\n') {
            Some(nl) => {
                let line = slice_chars(rest.as_slice(), 0, nl);
                let p = line_pair_exec(line.as_slice());
                push_opt_pair(&mut out, p);
                let next = slice_chars(rest.as_slice(), nl + 1, rl);
                proof {
                    assert(pairs_view(out@) + lines_pairs(next@) =~= pairs_view(before)
                        + lines_pairs(rest@));
                }
                rest = next;
            },
            None => {
                let p = line_pair_exec(rest.as_slice());
                push_opt_pair(&mut out, p);
                proof {
                    assert(pairs_view(out@) =~= pairs_view(before) + lines_pairs(rest@));
                }
                return out;
            },
        }
    }
}

/// What a reply yields: its pairs, or the message of the failure.
pub open spec fn pairs_result(raw: Seq<char>) -> Result<Seq<(Seq<char>, Seq<char>)>, Seq<char>> {
    let j = jsonl_pairs(raw);
    match lenient_json(raw) {
        None => if j.len() > 0 {
            Ok(j)
        } else {
            Err(missing_json_message(raw))
        },
        Some(v) => match doc_items(v) {
            None => if j.len() > 0 {
                Ok(j)
            } else {
                Err("translate output missing segments array"@)
            },
            Some(items) => {
                let out = items_pairs(items, items.len() as int);
                if out.len() > 0 {
                    Ok(out)
                } else if j.len() > 0 {
                    Ok(j)
                } else {
                    Err("translate output had no usable segments"@)
                }
            },
        },
    }
}

/// Characters of the reply shown when nothing could be read from it.
pub const PREVIEW_CHARS: usize = 400;

/// The failure message when a reply holds no JSON: it shows the start of the
/// trimmed reply.
pub open spec fn missing_json_message(raw: Seq<char>) -> Seq<char> {
    let t = trim(raw);
    "translate output missing JSON\nraw (first 400 chars):\n"@ + t.subrange(
        0,
        if t.len() < PREVIEW_CHARS {
            t.len() as int
        } else {
            PREVIEW_CHARS as int
        },
    )
}

/// Reads `(id, text)` pairs from a reply: the JSON document (strict, or
/// salvaged when cut off) as a list of items or an object holding one;
/// failing that, one JSON value per line.
pub fn parse_translation_pairs(raw: &str) -> (r: Result<Vec<(String, String)>, String>)
    ensures
        match r {
            Ok(v) => pairs_result(raw@) == Ok::<Seq<(Seq<char>, Seq<char>)>, Seq<char>>(
                pairs_view(v@),
            ),
            Err(e) => pairs_result(raw@) == Err::<Seq<(Seq<char>, Seq<char>)>, Seq<char>>(e@),
        },
{
    let rc = chars_of(raw);
    match lenient_json_in(rc.as_slice()) {
        None => {
            let j = parse_translation_pairs_jsonl(raw);
            if j.len() > 0 {
                return Ok(j);
            }
            let t = trim_chars(rc.as_slice());
            let n = if t.len() < PREVIEW_CHARS {
                t.len()
            } else {
                PREVIEW_CHARS
            };
            let head = slice_chars(t.as_slice(), 0, n);
            let mut msg = String::from_str("translate output missing JSON\nraw (first 400 chars):\n");
            let tail = string_of(head.as_slice());
            msg.append(tail.as_str());
            Err(msg)
        },
        Some(v) => match doc_items_exec(&v) {
            None => {
                let j = parse_translation_pairs_jsonl(raw);
                if j.len() > 0 {
                    return Ok(j);
                }
                Err(String::from_str("translate output missing segments array"))
            },
            Some(items) => {
                let out = items_pairs_exec(items);
                if out.len() > 0 {
                    return Ok(out);
                }
                let j = parse_translation_pairs_jsonl(raw);
                if j.len() > 0 {
                    return Ok(j);
                }
                Err(String::from_str("translate output had no usable segments"))
            },
        },
    }
}

} // verus!
