//! Small rules on media ids, URLs, file names and download options.

use vstd::prelude::*;
use vstd::string::StringExecFns;
use crate::text::{
    chars_of, contains, find_seq, lower_of, lowercase, occurs_at_exec, slice_chars, starts_with,
    str_contains, string_of, trim, trim_chars,
};
use crate::translate::contains_any;

verus! {

/// The value of a flag that defaults to on.
pub fn default_true() -> (r: bool)
    ensures
        r,
{
    true
}

/// Bytes of `c` in UTF-8.
pub open spec fn utf8_width(c: char) -> int {
    let u = c as u32;
    if u < 0x80 {
        1
    } else if u < 0x800 {
        2
    } else if u < 0x10000 {
        3
    } else {
        4
    }
}

/// Bytes of `s` in UTF-8.
pub open spec fn utf8_len(s: Seq<char>) -> int
    decreases s.len(),
{
    if s.len() == 0 {
        0
    } else {
        utf8_len(s.drop_last()) + utf8_width(s.last())
    }
}

/// An ASCII letter or digit.
pub open spec fn is_ascii_alnum(c: char) -> bool {
    ('0' <= c && c <= '9') || ('a' <= c && c <= 'z') || ('A' <= c && c <= 'Z')
}

pub fn is_ascii_alnum_exec(c: char) -> (r: bool)
    ensures
        r == is_ascii_alnum(c),
{
    ('0' <= c && c <= '9') || ('a' <= c && c <= 'z') || ('A' <= c && c <= 'Z')
}

/// Longest media id, in bytes.
pub const MAX_MEDIA_ID_BYTES: usize = 128;

/// Why a media id is refused, or `None` when it is accepted: once trimmed
/// it must be non-empty, start with `media-`, be at most 128 bytes long and
/// hold only ASCII letters, digits, `-` and `_`.
pub open spec fn media_id_error(id: Seq<char>) -> Option<Seq<char>> {
    let s = trim(id);
    if s.len() == 0 {
        Some("media_id is empty"@)
    } else if !starts_with(s, "media-"@) {
        Some("invalid media_id"@)
    } else if utf8_len(s) > MAX_MEDIA_ID_BYTES {
        Some("media_id too long"@)
    } else if !(forall|i: int|
        0 <= i < s.len() ==> is_ascii_alnum(#[trigger] s[i]) || s[i] == '-' || s[i] == '_') {
        Some("invalid media_id characters"@)
    } else {
        None
    }
}

/// Checks a media id; see `media_id_error`.
pub fn validate_media_id(id: &str) -> (r: Result<(), String>)
    ensures
        match media_id_error(id@) {
            None => r is Ok,
            Some(m) => r matches Err(e) && e@ == m,
        },
{
    let v = chars_of(id);
    let s = trim_chars(v.as_slice());
    if s.len() == 0 {
        return Err(String::from_str("media_id is empty"));
    }
    let prefix = chars_of("media-");
    if !occurs_at_exec(s.as_slice(), prefix.as_slice(), 0) {
        return Err(String::from_str("invalid media_id"));
    }
    let mut bytes: u128 = 0;
    let mut i: usize = 0;
    while i < s.len()
        invariant
            i <= s@.len(),
            bytes as int == utf8_len(s@.subrange(0, i as int)),
            bytes <= 4 * i,
        decreases s@.len() - i,
    {
        assert(s@.subrange(0, i + 1).drop_last() =~= s@.subrange(0, i as int));
        let u = s[i] as u32;
        let w: u128 = if u < 0x80 {
            1
        } else if u < 0x800 {
            2
        } else if u < 0x10000 {
            3
        } else {
            4
        };
        bytes = bytes + w;
        i = i + 1;
    }
    assert(s@.subrange(0, s@.len() as int) =~= s@);
    if bytes > MAX_MEDIA_ID_BYTES as u128 {
        return Err(String::from_str("media_id too long"));
    }
    let mut k: usize = 0;
    while k < s.len()
        invariant
            k <= s@.len(),
            s@ == trim(id@),
            s@.len() > 0,
            starts_with(s@, "media-"@),
            utf8_len(s@) <= MAX_MEDIA_ID_BYTES,
            forall|j: int|
                0 <= j < k ==> is_ascii_alnum(#[trigger] s@[j]) || s@[j] == '-' || s@[j] == '_',
        decreases s@.len() - k,
    {
        let c = s[k];
        if !(is_ascii_alnum_exec(c) || c == '-' || c == '_') {
            assert(!(is_ascii_alnum(s@[k as int]) || s@[k as int] == '-' || s@[k as int] == '_'));
            return Err(String::from_str("invalid media_id characters"));
        }
        k = k + 1;
    }
    Ok(())
}

/// True when the URL names YouTube.
pub fn looks_like_youtube_url(url: &str) -> (r: bool)
    ensures
        r == (contains(lower_of(trim(url@)), "youtube.com"@) || contains(
            lower_of(trim(url@)),
            "youtu.be"@,
        )),
{
    let v = chars_of(url);
    let t = trim_chars(v.as_slice());
    let ts = string_of(t.as_slice());
    let u = lowercase(ts.as_str());
    str_contains(u.as_str(), "youtube.com") || str_contains(u.as_str(), "youtu.be")
}

/// Failure messages of a downloader run worth repeating: broken TLS
/// sessions, reset connections, timeouts.
pub open spec fn download_retry_markers() -> Seq<Seq<char>> {
    seq![
        "eof occurred in violation of protocol"@,
        "_ssl.c"@,
        "tls"@,
        "ssl"@,
        "connection reset"@,
        "timed out"@,
        "temporary failure"@,
    ]
}

/// True when a failed download's error output names a transient network failure.
pub fn is_retryable_ytdlp_failure(stderr_tail: &str) -> (r: bool)
    ensures
        r == contains_any(lower_of(stderr_tail@), download_retry_markers()),
{
    let e = lowercase(stderr_tail);
    let needles = vec![
        "eof occurred in violation of protocol",
        "_ssl.c",
        "tls",
        "ssl",
        "connection reset",
        "timed out",
        "temporary failure",
    ];
    assert(needles@.map_values(|n: &str| n@) =~= download_retry_markers());
    crate::translate::contains_any_exec(e.as_str(), &needles)
}

/// `s` without its trailing slashes.
pub open spec fn strip_trailing_slashes(s: Seq<char>) -> Seq<char>
    decreases s.len(),
{
    if s.len() > 0 && s.last() == '/' {
        strip_trailing_slashes(s.drop_last())
    } else {
        s
    }
}

/// A service base URL as requests use it: trimmed, without trailing slashes.
pub fn normalize_base_url(url: &str) -> (r: String)
    ensures
        r@ == strip_trailing_slashes(trim(url@)),
{
    let v = chars_of(url);
    let t = trim_chars(v.as_slice());
    let mut j: usize = t.len();
    assert(t@.subrange(0, t@.len() as int) =~= t@);
    while j > 0 && t[j - 1] == '/'
        invariant
            j <= t@.len(),
            strip_trailing_slashes(t@) == strip_trailing_slashes(t@.subrange(0, j as int)),
        decreases j,
    {
        assert(t@.subrange(0, j as int).drop_last() =~= t@.subrange(0, j - 1));
        j = j - 1;
    }
    let out = slice_chars(t.as_slice(), 0, j);
    string_of(out.as_slice())
}

/// An ASCII digit.
pub open spec fn is_digit(c: char) -> bool {
    '0' <= c && c <= '9'
}

/// The value of a string of decimal digits.
pub open spec fn decimal_value(s: Seq<char>) -> int
    decreases s.len(),
{
    if s.len() == 0 {
        0
    } else {
        decimal_value(s.drop_last()) * 10 + (s.last() as u32 - '0' as u32)
    }
}

/// The number that `u32`'s `FromStr` reads from the trimmed text: an
/// optional `+`, then one or more decimal digits, of a value that fits.
pub open spec fn u32_of(s: Seq<char>) -> Option<u32> {
    u32_of_digits(unsigned_digits(trim(s)))
}

/// The text after an optional leading `+`.
pub open spec fn unsigned_digits(t: Seq<char>) -> Seq<char> {
    if t.len() > 0 && t[0] == '+' {
        t.drop_first()
    } else {
        t
    }
}

/// The value of one or more decimal digits, when it fits in `u32`.
pub open spec fn u32_of_digits(d: Seq<char>) -> Option<u32> {
    if d.len() > 0 && (forall|i: int| 0 <= i < d.len() ==> is_digit(#[trigger] d[i]))
        && decimal_value(d) <= u32::MAX {
        Some(decimal_value(d) as u32)
    } else {
        None
    }
}

proof fn lemma_decimal_nonneg(s: Seq<char>)
    requires
        forall|i: int| 0 <= i < s.len() ==> is_digit(#[trigger] s[i]),
    ensures
        decimal_value(s) >= 0,
    decreases s.len(),
{
    if s.len() > 0 {
        lemma_decimal_nonneg(s.drop_last());
    }
}

/// Reads an unsigned 32-bit number from trimmed text.
pub fn parse_u32(s: &str) -> (r: Option<u32>)
    ensures
        r == u32_of(s@),
{
    let v = chars_of(s);
    let t = trim_chars(v.as_slice());
    let start: usize = if t.len() > 0 && t[0] == '+' {
        1
    } else {
        0
    };
    let d = slice_chars(t.as_slice(), start, t.len());
    assert(d@ =~= (if t@.len() > 0 && t@[0] == '+' {
        t@.drop_first()
    } else {
        t@
    }));
    if d.len() == 0 {
        return None;
    }
    let mut val: u64 = 0;
    let mut i: usize = 0;
    let ghost dd = d@;
    assert(unsigned_digits(trim(s@)) == dd);
    while i < d.len()
        invariant
            i <= d@.len(),
            dd == d@,
            u32_of(s@) == u32_of_digits(dd),
            forall|k: int| 0 <= k < i ==> is_digit(#[trigger] d@[k]),
            val as int == decimal_value(d@.subrange(0, i as int)),
            val <= u32::MAX,
        decreases d@.len() - i,
    {
        let c = d[i];
        if !('0' <= c && c <= '9') {
            assert(!is_digit(dd[i as int]));
            return None;
        }
        assert(is_digit(dd[i as int]));
        assert(d@.subrange(0, i + 1).drop_last() =~= d@.subrange(0, i as int));
        let next: u64 = val * 10 + (c as u32 - '0' as u32) as u64;
        if next > u32::MAX as u64 {
            proof {
                lemma_decimal_grows(d@, i as int + 1);
            }
            return None;
        }
        val = next;
        i = i + 1;
    }
    assert(d@.subrange(0, d@.len() as int) =~= d@);
    Some(val as u32)
}

proof fn lemma_decimal_grows(d: Seq<char>, n: int)
    requires
        0 < n <= d.len(),
        forall|i: int| 0 <= i < d.len() ==> #[trigger] is_digit(d[i]) || i >= n,
        forall|i: int| 0 <= i < n ==> is_digit(#[trigger] d[i]),
        decimal_value(d.subrange(0, n)) > u32::MAX,
    ensures
        !(forall|i: int| 0 <= i < d.len() ==> is_digit(#[trigger] d[i])) || decimal_value(d)
            > u32::MAX,
    decreases d.len() - n,
{
    if n < d.len() && (forall|i: int| 0 <= i < d.len() ==> is_digit(#[trigger] d[i])) {
        let a = d.subrange(0, n);
        let b = d.subrange(0, n + 1);
        assert(b.drop_last() =~= a);
        lemma_decimal_nonneg(a);
        assert(decimal_value(b) == decimal_value(a) * 10 + (b.last() as u32 - '0' as u32));
        assert(decimal_value(b) > u32::MAX) by (nonlinear_arith)
            requires
                decimal_value(b) == decimal_value(a) * 10 + (b.last() as u32 - '0' as u32),
                decimal_value(a) > u32::MAX,
                (b.last() as u32 - '0' as u32) >= 0,
        ;
        lemma_decimal_grows(d, n + 1);
    } else if n == d.len() {
        assert(d.subrange(0, n) =~= d);
    }
}


/// The height cap that a quality setting names, as text.
pub open spec fn height_of(q: Seq<char>) -> Option<Seq<char>> {
    if q == "1080p"@ || q == "1080"@ {
        Some("1080"@)
    } else if q == "720p"@ || q == "720"@ {
        Some("720"@)
    } else if q == "480p"@ || q == "480"@ {
        Some("480"@)
    } else if q == "360p"@ || q == "360"@ {
        Some("360"@)
    } else {
        None
    }
}

/// The downloader's format selector: with ffmpeg, separate best video and
/// audio streams (mp4/m4a preferred); without, the best single file; in
/// both cases capped at the height the quality names.
pub open spec fn format_selector(has_ffmpeg: bool, height: Option<Seq<char>>) -> Seq<char> {
    match height {
        Some(h) => if has_ffmpeg {
            "bestvideo[height<="@ + h + "][ext=mp4]+bestaudio[ext=m4a]/bestvideo[height<="@ + h
                + "]+bestaudio/best[height<="@ + h + "][ext=mp4]/best[height<="@ + h + "]/best"@
        } else {
            "best[height<="@ + h + "][ext=mp4]/best[height<="@ + h + "]/best"@
        },
        None => if has_ffmpeg {
            "bestvideo[ext=mp4]+bestaudio[ext=m4a]/bestvideo+bestaudio/best"@
        } else {
            "best"@
        },
    }
}

fn str_eq(a: &str, b: &str) -> (r: bool)
    ensures
        r == (a@ == b@),
{
    let x = chars_of(a);
    let y = chars_of(b);
    crate::text::same_chars(x.as_slice(), y.as_slice())
}

fn height_of_exec(q: &str) -> (r: Option<&'static str>)
    ensures
        match r {
            Some(h) => height_of(q@) == Some(h@),
            None => height_of(q@) is None,
        },
{
    if str_eq(q, "1080p") || str_eq(q, "1080") {
        Some("1080")
    } else if str_eq(q, "720p") || str_eq(q, "720") {
        Some("720")
    } else if str_eq(q, "480p") || str_eq(q, "480") {
        Some("480")
    } else if str_eq(q, "360p") || str_eq(q, "360") {
        Some("360")
    } else {
        None
    }
}

/// The format selector for a download; the quality, when given, is trimmed
/// and lower-cased before it is read.
pub fn select_ytdlp_format(has_ffmpeg: bool, quality: Option<&str>) -> (r: String)
    ensures
        r@ == format_selector(
            has_ffmpeg,
            match quality {
                Some(q) => height_of(lower_of(trim(q@))),
                None => None,
            },
        ),
{
    let height = match quality {
        Some(q) => {
            let v = chars_of(q);
            let t = trim_chars(v.as_slice());
            let ts = string_of(t.as_slice());
            let l = lowercase(ts.as_str());
            height_of_exec(l.as_str())
        },
        None => None,
    };
    match height {
        Some(h) => {
            if has_ffmpeg {
                let mut r = String::from_str("bestvideo[height<=");
                r.append(h);
                r.append("][ext=mp4]+bestaudio[ext=m4a]/bestvideo[height<=");
                r.append(h);
                r.append("]+bestaudio/best[height<=");
                r.append(h);
                r.append("][ext=mp4]/best[height<=");
                r.append(h);
                r.append("]/best");
                r
            } else {
                let mut r = String::from_str("best[height<=");
                r.append(h);
                r.append("][ext=mp4]/best[height<=");
                r.append(h);
                r.append("]/best");
                r
            }
        },
        None => {
            if has_ffmpeg {
                String::from_str("bestvideo[ext=mp4]+bestaudio[ext=m4a]/bestvideo+bestaudio/best")
            } else {
                String::from_str("best")
            }
        },
    }
}

/// A `YYYYMMDD` upload date as `YYYY-MM-DD`, when the trimmed text is
/// exactly eight ASCII digits.
pub open spec fn iso_date_of(d: Seq<char>) -> Option<Seq<char>> {
    let s = trim(d);
    if s.len() == 8 && forall|i: int| 0 <= i < 8 ==> is_digit(#[trigger] s[i]) {
        Some(s.subrange(0, 4) + seq!['-'] + s.subrange(4, 6) + seq!['-'] + s.subrange(6, 8))
    } else {
        None
    }
}

/// Rewrites a compact upload date as an ISO date.
pub fn ytdlp_upload_date_to_iso(d: &str) -> (r: Option<String>)
    ensures
        match r {
            Some(x) => iso_date_of(d@) == Some(x@),
            None => iso_date_of(d@) is None,
        },
{
    let v = chars_of(d);
    let s = trim_chars(v.as_slice());
    if s.len() != 8 {
        return None;
    }
    let mut i: usize = 0;
    while i < 8
        invariant
            s@ == trim(d@),
            s@.len() == 8,
            i <= 8,
            forall|k: int| 0 <= k < i ==> is_digit(#[trigger] s@[k]),
        decreases 8 - i,
    {
        if !('0' <= s[i] && s[i] <= '9') {
            assert(!is_digit(s@[i as int]));
            return None;
        }
        i = i + 1;
    }
    let mut out: Vec<char> = Vec::new();
    let mut k: usize = 0;
    while k < 8
        invariant
            s@.len() == 8,
            k <= 8,
            out@ == if k <= 4 {
                s@.subrange(0, k as int)
            } else if k <= 6 {
                s@.subrange(0, 4) + seq!['-'] + s@.subrange(4, k as int)
            } else {
                s@.subrange(0, 4) + seq!['-'] + s@.subrange(4, 6) + seq!['-'] + s@.subrange(
                    6,
                    k as int,
                )
            },
        decreases 8 - k,
    {
        if k == 4 || k == 6 {
            out.push('-');
        }
        out.push(s[k]);
        k = k + 1;
        proof {
            if k <= 4 {
                assert(out@ =~= s@.subrange(0, k as int));
            } else if k <= 6 {
                assert(out@ =~= s@.subrange(0, 4) + seq!['-'] + s@.subrange(4, k as int));
            } else {
                assert(out@ =~= s@.subrange(0, 4) + seq!['-'] + s@.subrange(4, 6) + seq!['-']
                    + s@.subrange(6, k as int));
            }
        }
    }
    Some(string_of(out.as_slice()))
}

/// A character kept as it is in a file name: ASCII letters and digits,
/// space, `-`, `_`, `.`, and anything outside ASCII.
pub open spec fn file_name_char(c: char) -> bool {
    is_ascii_alnum(c) || c == ' ' || c == '-' || c == '_' || c == '.' || (c as u32) >= 0x80
}

/// Longest file name component, in characters.
pub const MAX_NAME_CHARS: usize = 60;

/// A file name component made from free text: other ASCII characters become
/// `_`; blank gives `media`; names over 60 characters are cut and trimmed.
pub open spec fn file_name_of(raw: Seq<char>) -> Seq<char> {
    let t = trim(raw);
    let mapped = Seq::new(t.len(), |i: int| if file_name_char(t[i]) { t[i] } else { '_' });
    let s = trim(mapped);
    if s.len() == 0 {
        "media"@
    } else if s.len() <= MAX_NAME_CHARS {
        s
    } else {
        trim(s.subrange(0, MAX_NAME_CHARS as int))
    }
}

/// A safe file name component for free text such as a title.
pub fn sanitize_filename_component(raw: &str) -> (r: String)
    ensures
        r@ == file_name_of(raw@),
{
    let v = chars_of(raw);
    let t = trim_chars(v.as_slice());
    let mut mapped: Vec<char> = Vec::new();
    let mut i: usize = 0;
    while i < t.len()
        invariant
            i <= t@.len(),
            mapped@ == Seq::new(i as nat, |k: int| if file_name_char(t@[k]) { t@[k] } else { '_' }),
        decreases t@.len() - i,
    {
        let c = t[i];
        let keep = is_ascii_alnum_exec(c) || c == ' ' || c == '-' || c == '_' || c == '.' || (c as u32)
            >= 0x80;
        if keep {
            mapped.push(c);
        } else {
            mapped.push('_');
        }
        i = i + 1;
        assert(mapped@ =~= Seq::new(i as nat, |k: int| if file_name_char(t@[k]) { t@[k] } else { '_' }));
    }
    let s = trim_chars(mapped.as_slice());
    if s.len() == 0 {
        return String::from_str("media");
    }
    if s.len() <= MAX_NAME_CHARS {
        return string_of(s.as_slice());
    }
    let head = slice_chars(s.as_slice(), 0, MAX_NAME_CHARS);
    let cut = trim_chars(head.as_slice());
    string_of(cut.as_slice())
}

/// Index of the first whitespace character, or the length.
pub open spec fn ws_index(s: Seq<char>) -> int
    decreases s.len(),
{
    if s.len() == 0 || crate::text::is_ws(s[0]) {
        0
    } else {
        1 + ws_index(s.drop_first())
    }
}

/// Punctuation that may trail a URL pasted into prose, and is not part of it.
pub open spec fn trailing_punct(c: char) -> bool {
    c == ']' || c == '】' || c == ')' || c == '）' || c == '>' || c == ',' || c == '，' || c == '。'
        || c == ';' || c == '；' || c == '!' || c == '！' || c == '?' || c == '？' || c == '"' || c
        == '\'' || c == '“' || c == '”' || c == '‘' || c == '’'
}

fn is_trailing_punct(c: char) -> (r: bool)
    ensures
        r == trailing_punct(c),
{
    c == ']' || c == '】' || c == ')' || c == '）' || c == '>' || c == ',' || c == '，' || c == '。'
        || c == ';' || c == '；' || c == '!' || c == '！' || c == '?' || c == '？' || c == '"' || c
        == '\'' || c == '“' || c == '”' || c == '‘' || c == '’'
}

/// `s` without its trailing punctuation.
pub open spec fn strip_trailing_punct(s: Seq<char>) -> Seq<char>
    decreases s.len(),
{
    if s.len() > 0 && trailing_punct(s.last()) {
        strip_trailing_punct(s.drop_last())
    } else {
        s
    }
}

/// The first web URL in pasted text: from the first `https://` (else
/// `http://`) to the next whitespace, without trailing punctuation.
pub open spec fn first_url(raw: Seq<char>) -> Option<Seq<char>> {
    let s = trim(raw);
    let i1 = find_seq(s, "https://"@);
    let idx = if i1 >= 0 {
        i1
    } else {
        find_seq(s, "http://"@)
    };
    if s.len() == 0 || idx < 0 || idx > s.len() {
        None
    } else {
        let tail = s.subrange(idx, s.len() as int);
        let url = strip_trailing_punct(trim(tail.subrange(0, ws_index(tail))));
        if starts_with(url, "http://"@) || starts_with(url, "https://"@) {
            Some(url)
        } else {
            None
        }
    }
}

proof fn lemma_ws_index_bounds(s: Seq<char>)
    ensures
        0 <= ws_index(s) <= s.len(),
    decreases s.len(),
{
    if s.len() > 0 && !crate::text::is_ws(s[0]) {
        lemma_ws_index_bounds(s.drop_first());
    }
}

/// Finds the first web URL in pasted text.
pub fn extract_first_http_url(raw: &str) -> (r: Option<String>)
    ensures
        match r {
            Some(u) => first_url(raw@) == Some(u@),
            None => first_url(raw@) is None,
        },
{
    let v = chars_of(raw);
    let s = trim_chars(v.as_slice());
    if s.len() == 0 {
        return None;
    }
    let https = chars_of("https://");
    let http = chars_of("http://");
    let idx = match crate::text::find_seq_exec(s.as_slice(), https.as_slice()) {
        Some(i) => i,
        None => match crate::text::find_seq_exec(s.as_slice(), http.as_slice()) {
            Some(i) => i,
            None => {
                return None;
            },
        },
    };
    let sl = s.len();
    let tail = slice_chars(s.as_slice(), idx, sl);
    let mut end: usize = 0;
    assert(tail@.subrange(0, tail@.len() as int) =~= tail@);
    while end < tail.len() && !crate::text::is_ws_char(tail[end])
        invariant
            end <= tail@.len(),
            ws_index(tail@) == end + ws_index(tail@.subrange(end as int, tail@.len() as int)),
        decreases tail@.len() - end,
    {
        assert(tail@.subrange(end as int, tail@.len() as int).drop_first() =~= tail@.subrange(
            end + 1,
            tail@.len() as int,
        ));
        end = end + 1;
    }
    let head = slice_chars(tail.as_slice(), 0, end);
    let url0 = trim_chars(head.as_slice());
    let mut j: usize = url0.len();
    assert(url0@.subrange(0, url0@.len() as int) =~= url0@);
    while j > 0 && is_trailing_punct(url0[j - 1])
        invariant
            j <= url0@.len(),
            strip_trailing_punct(url0@) == strip_trailing_punct(url0@.subrange(0, j as int)),
        decreases j,
    {
        assert(url0@.subrange(0, j as int).drop_last() =~= url0@.subrange(0, j - 1));
        j = j - 1;
    }
    let url = slice_chars(url0.as_slice(), 0, j);
    if occurs_at_exec(url.as_slice(), http.as_slice(), 0) || occurs_at_exec(url.as_slice(), https.as_slice(), 0) {
        Some(string_of(url.as_slice()))
    } else {
        None
    }
}

} // verus!
