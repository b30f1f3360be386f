//! Reading the JSON document that the whisper.cpp recognizer writes.

use vstd::prelude::*;
use crate::response::{get, get_exec, opt_str_of, parse_json, Json};
use crate::text::{chars_of, string_of, trim, trim_chars};

verus! {

/// `key` of the value, when there is a value.
pub open spec fn get_in(v: Option<Json>, key: Seq<char>) -> Option<Json> {
    match v {
        Some(x) => get(x, key),
        None => None,
    }
}

/// The integer a value holds, if it is one.
pub open spec fn int_of(v: Option<Json>) -> Option<i64> {
    match v {
        Some(Json::Number(n)) => n,
        _ => None,
    }
}

/// The language the document names, trimmed, when it is not blank.
pub open spec fn whisper_language(v: Json) -> Option<Seq<char>> {
    let l = trim(opt_str_of(get_in(get(v, "result"@), "language"@)));
    if get_in(get(v, "result"@), "language"@) matches Some(Json::Str(_)) && l.len() > 0 {
        Some(l)
    } else {
        None
    }
}

/// The segment an item of the transcription gives: its trimmed text, from
/// `offsets.from` (0 when missing) to `offsets.to` (the start when missing),
/// neither before 0 nor the end before the start. Blank items give none.
pub open spec fn whisper_segment(item: Json) -> Option<(i64, i64, Seq<char>)> {
    let text = trim(opt_str_of(get(item, "text"@)));
    let from: i64 = match int_of(get_in(get(item, "offsets"@), "from"@)) {
        Some(n) => n,
        None => 0,
    };
    let to: i64 = match int_of(get_in(get(item, "offsets"@), "to"@)) {
        Some(n) => n,
        None => from,
    };
    if text.len() == 0 {
        None
    } else {
        Some((if from < 0 { 0 } else { from }, if to < from { from } else { to }, text))
    }
}

/// The items of the document's transcription.
pub open spec fn whisper_items(v: Json) -> Seq<Json> {
    match get(v, "transcription"@) {
        Some(Json::Array(a)) => a@,
        _ => Seq::empty(),
    }
}

/// The segments of the first `n` items.
pub open spec fn whisper_segments(items: Seq<Json>, n: int) -> Seq<(i64, i64, Seq<char>)>
    decreases n,
{
    if n <= 0 {
        Seq::empty()
    } else {
        match whisper_segment(items[n - 1]) {
            Some(s) => whisper_segments(items, n - 1).push(s),
            None => whisper_segments(items, n - 1),
        }
    }
}

/// The view of a list of segments with signed times.
pub open spec fn signed_segs_view(v: Seq<(i64, i64, String)>) -> Seq<(i64, i64, Seq<char>)> {
    v.map_values(|x: (i64, i64, String)| (x.0, x.1, x.2@))
}

fn get_in_exec<'a>(v: Option<&'a Json>, key: &[char]) -> (r: Option<&'a Json>)
    ensures
        match r {
            Some(x) => get_in(
                match v {
                    Some(y) => Some(*y),
                    None => None,
                },
                key@,
            ) == Some(*x),
            None => get_in(
                match v {
                    Some(y) => Some(*y),
                    None => None,
                },
                key@,
            ) is None,
        },
{
    match v {
        Some(x) => get_exec(x, key),
        None => None,
    }
}

fn int_exec(v: Option<&Json>) -> (r: Option<i64>)
    ensures
        r == int_of(
            match v {
                Some(y) => Some(*y),
                None => None,
            },
        ),
{
    match v {
        Some(Json::Number(n)) => *n,
        _ => None,
    }
}

fn str_exec(v: Option<&Json>) -> (r: Vec<char>)
    ensures
        r@ == opt_str_of(
            match v {
                Some(y) => Some(*y),
                None => None,
            },
        ),
{
    match v {
        Some(Json::Str(s)) => chars_of(s.as_str()),
        _ => Vec::new(),
    }
}

/// The language and the segments `(from_ms, to_ms, text)` of a whisper.cpp
/// document.
pub fn parse_whisper_cpp_json(v: &Json) -> (r: (Option<String>, Vec<(i64, i64, String)>))
    ensures
        match r.0 {
            Some(l) => whisper_language(*v) == Some(l@),
            None => whisper_language(*v) is None,
        },
        signed_segs_view(r.1@) == whisper_segments(whisper_items(*v), whisper_items(*v).len() as int),
{
    let k_result = chars_of("result");
    let k_language = chars_of("language");
    let k_transcription = chars_of("transcription");
    let k_text = chars_of("text");
    let k_offsets = chars_of("offsets");
    let k_from = chars_of("from");
    let k_to = chars_of("to");
    let lv = get_in_exec(get_exec(v, k_result.as_slice()), k_language.as_slice());
    let lang = match lv {
        Some(Json::Str(s)) => {
            let c = chars_of(s.as_str());
            let t = trim_chars(c.as_slice());
            if t.len() > 0 {
                Some(string_of(t.as_slice()))
            } else {
                None
            }
        },
        _ => None,
    };
    let mut segs: Vec<(i64, i64, String)> = Vec::new();
    match get_exec(v, k_transcription.as_slice()) {
        Some(Json::Array(items)) => {
            let mut i: usize = 0;
            while i < items.len()
                invariant
                    i <= items@.len(),
                    whisper_items(*v) == items@,
                    k_text@ == "text"@,
                    k_offsets@ == "offsets"@,
                    k_from@ == "from"@,
                    k_to@ == "to"@,
                    signed_segs_view(segs@) == whisper_segments(items@, i as int),
                decreases items@.len() - i,
            {
                let item = &items[i];
                let tv = str_exec(get_exec(item, k_text.as_slice()));
                let text = trim_chars(tv.as_slice());
                let offsets = get_exec(item, k_offsets.as_slice());
                let from: i64 = match int_exec(get_in_exec(offsets, k_from.as_slice())) {
                    Some(n) => n,
                    None => 0,
                };
                let to: i64 = match int_exec(get_in_exec(offsets, k_to.as_slice())) {
                    Some(n) => n,
                    None => from,
                };
                if text.len() > 0 {
                    let seg = (
                        if from < 0 {
                            0
                        } else {
                            from
                        },
                        if to < from {
                            from
                        } else {
                            to
                        },
                        string_of(text.as_slice()),
                    );
                    let ghost before = segs@;
                    segs.push(seg);
                    assert(signed_segs_view(segs@) =~= signed_segs_view(before).push(
                        (seg.0, seg.1, seg.2@),
                    ));
                }
                i = i + 1;
            }
        },
        _ => {},
    }
    (lang, segs)
}

/// The language and segments of whisper.cpp's output text; `None` when it
/// is not a JSON document (text with lone surrogate escapes is one only
/// after `sanitize_json_unicode_surrogates`).
pub fn parse_whisper_output(text: &str) -> (r: Option<(Option<String>, Vec<(i64, i64, String)>)>)
    ensures
        r is Some <==> crate::response::json_parse(text@) is Some,
        r matches Some(p) ==> ({
            let v = crate::response::json_parse(text@)->0;
            &&& match p.0 {
                Some(l) => whisper_language(v) == Some(l@),
                None => whisper_language(v) is None,
            }
            &&& signed_segs_view(p.1@) == whisper_segments(whisper_items(v), whisper_items(v).len() as int)
        }),
{
    let c = chars_of(text);
    match parse_json(c.as_slice()) {
        Some(v) => Some(parse_whisper_cpp_json(&v)),
        None => None,
    }
}

} // verus!
