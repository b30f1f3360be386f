//! Character-sequence helpers shared by the parsers and classifiers.

use vstd::prelude::*;

verus! {

/// The characters of `s`, in order.
pub fn chars_of(s: &str) -> (r: Vec<char>)
    ensures
        r@ == s@,
{
    let mut r: Vec<char> = Vec::new();
    for c in it: s.chars()
        invariant
            r@ == it.seq().subrange(0, it.index() as int),
            it.seq() == s@,
    {
        r.push(c);
    }
    r
}

/// Relies on `FromIterator<char> for String`: the string holds exactly the given characters.
#[verifier::external_body]
pub(crate) fn string_of(v: &[char]) -> (r: String)
    ensures
        r@ == v@,
{
    v.iter().collect()
}


/// What `str::to_lowercase` makes of a character sequence.
pub uninterp spec fn lower_of(s: Seq<char>) -> Seq<char>;

/// Relies on `str::to_lowercase`: the result depends on the characters alone.
#[verifier::external_body]
pub(crate) fn lowercase(s: &str) -> (r: String)
    ensures
        r@ == lower_of(s@),
{
    s.to_lowercase()
}

/// Unicode `White_Space`, the set that `char::is_whitespace` tests.
pub open spec fn is_ws(c: char) -> bool {
    let u = c as u32;
    u == 0x20 || (0x09 <= u && u <= 0x0d) || u == 0x85 || u == 0xa0 || u == 0x1680 || (0x2000
        <= u && u <= 0x200a) || u == 0x2028 || u == 0x2029 || u == 0x202f || u == 0x205f || u
        == 0x3000
}

pub fn is_ws_char(c: char) -> (r: bool)
    ensures
        r == is_ws(c),
{
    let u = c as u32;
    u == 0x20 || (0x09 <= u && u <= 0x0d) || u == 0x85 || u == 0xa0 || u == 0x1680 || (0x2000
        <= u && u <= 0x200a) || u == 0x2028 || u == 0x2029 || u == 0x202f || u == 0x205f || u
        == 0x3000
}

/// `s` without its leading whitespace.
pub open spec fn trim_start(s: Seq<char>) -> Seq<char>
    decreases s.len(),
{
    if s.len() > 0 && is_ws(s[0]) {
        trim_start(s.drop_first())
    } else {
        s
    }
}

/// `s` without its trailing whitespace.
pub open spec fn trim_end(s: Seq<char>) -> Seq<char>
    decreases s.len(),
{
    if s.len() > 0 && is_ws(s.last()) {
        trim_end(s.drop_last())
    } else {
        s
    }
}

/// `s` without leading and trailing whitespace, as `str::trim` gives it.
pub open spec fn trim(s: Seq<char>) -> Seq<char> {
    trim_end(trim_start(s))
}

/// True when `needle` occurs in `hay` starting at index `i`.
pub open spec fn occurs_at(hay: Seq<char>, needle: Seq<char>, i: int) -> bool {
    0 <= i && i + needle.len() <= hay.len() && hay.subrange(i, i + needle.len()) == needle
}

/// True when `needle` occurs somewhere in `hay`, as `str::contains` tests it.
pub open spec fn contains(hay: Seq<char>, needle: Seq<char>) -> bool {
    exists|i: int| occurs_at(hay, needle, i)
}

pub open spec fn starts_with(s: Seq<char>, prefix: Seq<char>) -> bool {
    occurs_at(s, prefix, 0)
}

pub open spec fn ends_with(s: Seq<char>, suffix: Seq<char>) -> bool {
    occurs_at(s, suffix, s.len() - suffix.len())
}

proof fn lemma_trim_start_at(s: Seq<char>, i: int)
    requires
        0 <= i <= s.len(),
        forall|t: int| 0 <= t < i ==> is_ws(#[trigger] s[t]),
        i == s.len() || !is_ws(s[i]),
    ensures
        trim_start(s) == s.subrange(i, s.len() as int),
    decreases i,
{
    if i > 0 {
        assert forall|t: int| 0 <= t < i - 1 implies is_ws(#[trigger] s.drop_first()[t]) by {
            assert(s.drop_first()[t] == s[t + 1]);
        }
        lemma_trim_start_at(s.drop_first(), i - 1);
        assert(s.drop_first().subrange(i - 1, s.drop_first().len() as int) =~= s.subrange(
            i,
            s.len() as int,
        ));
    } else {
        assert(s.subrange(0, s.len() as int) =~= s);
    }
}

proof fn lemma_trim_end_at(s: Seq<char>, j: int)
    requires
        0 <= j <= s.len(),
        forall|t: int| j <= t < s.len() ==> is_ws(#[trigger] s[t]),
        j == 0 || !is_ws(s[j - 1]),
    ensures
        trim_end(s) == s.subrange(0, j),
    decreases s.len() - j,
{
    if j < s.len() {
        lemma_trim_end_at(s.drop_last(), j);
        assert(s.drop_last().subrange(0, j) =~= s.subrange(0, j));
    } else {
        assert(s.subrange(0, s.len() as int) =~= s);
    }
}

/// Index of the first non-whitespace character, or the length.
pub fn trim_start_index(v: &[char]) -> (i: usize)
    ensures
        i <= v@.len(),
        forall|t: int| 0 <= t < i ==> is_ws(#[trigger] v@[t]),
        i == v@.len() || !is_ws(v@[i as int]),
{
    let mut i: usize = 0;
    while i < v.len() && is_ws_char(v[i])
        invariant
            i <= v@.len(),
            forall|t: int| 0 <= t < i ==> is_ws(#[trigger] v@[t]),
        decreases v@.len() - i,
    {
        i = i + 1;
    }
    i
}

/// Index one past the last non-whitespace character of `v`, or 0.
pub fn trim_end_index(v: &[char]) -> (j: usize)
    ensures
        j <= v@.len(),
        forall|t: int| j <= t < v@.len() ==> is_ws(#[trigger] v@[t]),
        j == 0 || !is_ws(v@[j - 1]),
{
    let mut j: usize = v.len();
    while j > 0 && is_ws_char(v[j - 1])
        invariant
            j <= v@.len(),
            forall|t: int| j <= t < v@.len() ==> is_ws(#[trigger] v@[t]),
        decreases j,
    {
        j = j - 1;
    }
    j
}

/// The bounds `(i, j)` with `trim(v@) == v@[i..j]`.
pub fn trim_bounds(v: &[char]) -> (r: (usize, usize))
    ensures
        r.0 <= r.1 <= v@.len(),
        trim(v@) == v@.subrange(r.0 as int, r.1 as int),
{
    let i = trim_start_index(v);
    let j = trim_end_index(v);
    proof {
        let s = v@;
        lemma_trim_start_at(s, i as int);
        let t = s.subrange(i as int, s.len() as int);
        if i < j {
            assert forall|k: int| j - i <= k < t.len() implies is_ws(#[trigger] t[k]) by {
                assert(t[k] == s[k + i]);
            }
            lemma_trim_end_at(t, j - i);
            assert(t.subrange(0, j - i) =~= s.subrange(i as int, j as int));
        } else {
            if i < s.len() {
                assert(is_ws(s[i as int]));
            }
            lemma_trim_end_at(t, 0);
            assert(t.subrange(0, 0) =~= s.subrange(i as int, i as int));
        }
    }
    if i < j {
        (i, j)
    } else {
        (i, i)
    }
}

/// A copy of `v[from..to]`.
pub fn slice_chars(v: &[char], from: usize, to: usize) -> (r: Vec<char>)
    requires
        from <= to <= v@.len(),
    ensures
        r@ == v@.subrange(from as int, to as int),
{
    let mut r: Vec<char> = Vec::new();
    let mut k: usize = from;
    while k < to
        invariant
            from <= k <= to <= v@.len(),
            r@ == v@.subrange(from as int, k as int),
        decreases to - k,
    {
        r.push(v[k]);
        k = k + 1;
    }
    r
}

/// `v` with leading and trailing whitespace removed.
pub fn trim_chars(v: &[char]) -> (r: Vec<char>)
    ensures
        r@ == trim(v@),
{
    let (i, j) = trim_bounds(v);
    slice_chars(v, i, j)
}

/// True when `needle` occurs in `hay` at index `i`.
pub fn occurs_at_exec(hay: &[char], needle: &[char], i: usize) -> (r: bool)
    ensures
        r == occurs_at(hay@, needle@, i as int),
{
    if i > hay.len() || needle.len() > hay.len() - i {
        return false;
    }
    let hl = hay.len();
    let mut k: usize = 0;
    while k < needle.len()
        invariant
            hl == hay@.len(),
            i + needle@.len() <= hay@.len(),
            k <= needle@.len(),
            forall|t: int| 0 <= t < k ==> hay@[i + t] == needle@[t],
        decreases needle@.len() - k,
    {
        assert(i + k < hay@.len());
        if hay[i + k] != needle[k] {
            assert(hay@.subrange(i as int, i + needle@.len())[k as int] != needle@[k as int]);
            return false;
        }
        k = k + 1;
    }
    assert(hay@.subrange(i as int, i + needle@.len()) =~= needle@);
    true
}

/// Index of the first occurrence of `needle` in `hay` at or after `from`.
pub fn find_from(hay: &[char], needle: &[char], from: usize) -> (r: Option<usize>)
    ensures
        match r {
            Some(i) => from <= i && occurs_at(hay@, needle@, i as int) && forall|k: int|
                from <= k < i ==> !occurs_at(hay@, needle@, k),
            None => forall|k: int| from <= k ==> !occurs_at(hay@, needle@, k),
        },
{
    if from > hay.len() {
        return None;
    }
    let mut i: usize = from;
    while i < hay.len()
        invariant
            from <= i <= hay@.len(),
            forall|k: int| from <= k < i ==> !occurs_at(hay@, needle@, k),
        decreases hay@.len() - i,
    {
        if occurs_at_exec(hay, needle, i) {
            return Some(i);
        }
        i = i + 1;
    }
    if occurs_at_exec(hay, needle, i) {
        return Some(i);
    }
    None
}

/// True when `needle` occurs in `hay`.
pub fn contains_chars(hay: &[char], needle: &[char]) -> (r: bool)
    ensures
        r == contains(hay@, needle@),
{
    match find_from(hay, needle, 0) {
        Some(_) => true,
        None => false,
    }
}

/// True when `needle` occurs in `hay`, on strings.
pub fn str_contains(hay: &str, needle: &str) -> (r: bool)
    ensures
        r == contains(hay@, needle@),
{
    let h = chars_of(hay);
    let n = chars_of(needle);
    contains_chars(h.as_slice(), n.as_slice())
}


/// True when the two character sequences are equal.
pub fn same_chars(a: &[char], b: &[char]) -> (r: bool)
    ensures
        r == (a@ == b@),
{
    if a.len() != b.len() {
        return false;
    }
    let mut k: usize = 0;
    while k < a.len()
        invariant
            a@.len() == b@.len(),
            k <= a@.len(),
            forall|t: int| 0 <= t < k ==> a@[t] == b@[t],
        decreases a@.len() - k,
    {
        if a[k] != b[k] {
            return false;
        }
        k = k + 1;
    }
    assert(a@ =~= b@);
    true
}


/// Index of the first `c` in `s`, or -1.
#[verifier::opaque]
pub open spec fn find_char(s: Seq<char>, c: char) -> int {
    if exists|i: int| 0 <= i < s.len() && s[i] == c {
        choose|i: int| 0 <= i < s.len() && s[i] == c && forall|k: int| 0 <= k < i ==> s[k] != c
    } else {
        -1
    }
}

/// Index of the last `c` in `s`, or -1.
#[verifier::opaque]
pub open spec fn rfind_char(s: Seq<char>, c: char) -> int {
    if exists|i: int| 0 <= i < s.len() && s[i] == c {
        choose|i: int| 0 <= i < s.len() && s[i] == c && forall|k: int| i < k < s.len() ==> s[k] != c
    } else {
        -1
    }
}

/// Index of the last occurrence of `n` in `s`, or -1.
#[verifier::opaque]
pub open spec fn rfind_seq(s: Seq<char>, n: Seq<char>) -> int {
    if exists|i: int| occurs_at(s, n, i) {
        choose|i: int| occurs_at(s, n, i) && forall|k: int| i < k ==> !occurs_at(s, n, k)
    } else {
        -1
    }
}

/// Index of the first `c` in `v`, or -1 as `None`.
pub fn find_char_exec(v: &[char], c: char) -> (r: Option<usize>)
    ensures
        match r {
            Some(i) => i == find_char(v@, c) && i < v@.len(),
            None => find_char(v@, c) == -1,
        },
{
    let mut i: usize = 0;
    while i < v.len()
        invariant
            i <= v@.len(),
            forall|k: int| 0 <= k < i ==> v@[k] != c,
        decreases v@.len() - i,
    {
        if v[i] == c {
            proof {
                reveal(find_char);
                let j = find_char(v@, c);
                assert(0 <= j < v@.len() && v@[j] == c && forall|k: int| 0 <= k < j ==> v@[k] != c);
                if j < i {
                } else if j > i {
                    assert(v@[i as int] != c);
                }
            }
            return Some(i);
        }
        i = i + 1;
    }
    proof {
        reveal(find_char);
    }
    None
}

/// Index of the last `c` in `v`, or -1 as `None`.
pub fn rfind_char_exec(v: &[char], c: char) -> (r: Option<usize>)
    ensures
        match r {
            Some(i) => i == rfind_char(v@, c) && i < v@.len(),
            None => rfind_char(v@, c) == -1,
        },
{
    let mut i: usize = v.len();
    while i > 0
        invariant
            i <= v@.len(),
            forall|k: int| i <= k < v@.len() ==> v@[k] != c,
        decreases i,
    {
        if v[i - 1] == c {
            proof {
                reveal(rfind_char);
                let j = rfind_char(v@, c);
                assert(0 <= j < v@.len() && v@[j] == c && forall|k: int| j < k < v@.len() ==> v@[k] != c);
                if j > i - 1 {
                } else if j < i - 1 {
                    assert(v@[i - 1] != c);
                }
            }
            return Some(i - 1);
        }
        i = i - 1;
    }
    proof {
        reveal(rfind_char);
    }
    None
}

/// Index of the last occurrence of `n` in `v`, or -1 as `None`.
pub fn rfind_seq_exec(v: &[char], n: &[char]) -> (r: Option<usize>)
    ensures
        match r {
            Some(i) => i == rfind_seq(v@, n@) && i + n@.len() <= v@.len(),
            None => rfind_seq(v@, n@) == -1,
        },
{
    reveal(rfind_seq);
    if n.len() > v.len() {
        assert forall|k: int| !occurs_at(v@, n@, k) by {}
        return None;
    }
    let top: usize = v.len() - n.len();
    if occurs_at_exec(v, n, top) {
        proof {
            let j = rfind_seq(v@, n@);
            assert(occurs_at(v@, n@, j) && forall|k: int| j < k ==> !occurs_at(v@, n@, k));
            if j < top {
            }
        }
        return Some(top);
    }
    let mut i: usize = top;
    while i > 0
        invariant
            i <= v@.len() - n@.len(),
            n@.len() <= v@.len(),
            forall|k: int| i <= k ==> !occurs_at(v@, n@, k),
        decreases i,
    {
        if occurs_at_exec(v, n, i - 1) {
            proof {
                reveal(rfind_seq);
                let j = rfind_seq(v@, n@);
                assert(occurs_at(v@, n@, j) && forall|k: int| j < k ==> !occurs_at(v@, n@, k));
                if j < i - 1 {
                    assert(!occurs_at(v@, n@, i - 1));
                }
            }
            return Some(i - 1);
        }
        i = i - 1;
    }
    assert forall|k: int| !occurs_at(v@, n@, k) by {
        if k < 0 {
        }
    }
    None
}


/// `v` without its leading whitespace.
pub fn trim_start_chars(v: &[char]) -> (r: Vec<char>)
    ensures
        r@ == trim_start(v@),
{
    let i = trim_start_index(v);
    proof {
        lemma_trim_start_at(v@, i as int);
    }
    slice_chars(v, i, v.len())
}

/// The length of `v` without its trailing whitespace.
pub fn trim_end_len(v: &[char]) -> (j: usize)
    ensures
        j <= v@.len(),
        trim_end(v@) == v@.subrange(0, j as int),
{
    let j = trim_end_index(v);
    proof {
        lemma_trim_end_at(v@, j as int);
    }
    j
}

/// The concatenation of `a` and `b`.
pub fn concat_chars(a: &[char], b: &[char]) -> (r: Vec<char>)
    ensures
        r@ == a@ + b@,
{
    let mut r = slice_chars(a, 0, a.len());
    let mut k: usize = 0;
    while k < b.len()
        invariant
            k <= b@.len(),
            r@ == a@ + b@.subrange(0, k as int),
        decreases b@.len() - k,
    {
        r.push(b[k]);
        k = k + 1;
        assert(r@ =~= a@ + b@.subrange(0, k as int));
    }
    assert(b@.subrange(0, b@.len() as int) =~= b@);
    assert(a@.subrange(0, a@.len() as int) =~= a@);
    r
}


/// Index of the first occurrence of `n` in `s`, or -1.
#[verifier::opaque]
pub open spec fn find_seq(s: Seq<char>, n: Seq<char>) -> int {
    if exists|i: int| occurs_at(s, n, i) {
        choose|i: int| occurs_at(s, n, i) && forall|k: int| k < i ==> !occurs_at(s, n, k)
    } else {
        -1
    }
}

/// Index of the first occurrence of `needle` in `hay`, or -1 as `None`.
pub fn find_seq_exec(hay: &[char], needle: &[char]) -> (r: Option<usize>)
    ensures
        match r {
            Some(i) => i == find_seq(hay@, needle@) && i + needle@.len() <= hay@.len(),
            None => find_seq(hay@, needle@) == -1,
        },
{
    reveal(find_seq);
    let r = find_from(hay, needle, 0);
    match r {
        Some(i) => {
            proof {
                let j = find_seq(hay@, needle@);
                assert(occurs_at(hay@, needle@, i as int));
                assert(occurs_at(hay@, needle@, j) && forall|k: int| k < j ==> !occurs_at(hay@, needle@, k));
                if j < i {
                    assert(!occurs_at(hay@, needle@, j));
                }
            }
            Some(i)
        },
        None => {
            proof {
                assert forall|k: int| !occurs_at(hay@, needle@, k) by {
                    if k < 0 {
                    }
                }
            }
            None
        },
    }
}


/// Text with a non-whitespace character stays non-empty when trimmed.
pub proof fn lemma_visible_trim(s: Seq<char>, i: int)
    requires
        0 <= i < s.len(),
        !is_ws(s[i]),
    ensures
        trim(s).len() > 0,
{
    lemma_visible_trim_start(s, i);
    let t = trim_start(s);
    lemma_visible_trim_end(t);
}

proof fn lemma_visible_trim_start(s: Seq<char>, i: int)
    requires
        0 <= i < s.len(),
        !is_ws(s[i]),
    ensures
        trim_start(s).len() > 0,
        !is_ws(trim_start(s)[0]),
    decreases s.len(),
{
    if is_ws(s[0]) {
        assert(i > 0);
        assert(s.drop_first()[i - 1] == s[i]);
        lemma_visible_trim_start(s.drop_first(), i - 1);
    }
}

proof fn lemma_visible_trim_end(t: Seq<char>)
    requires
        t.len() > 0,
        !is_ws(t[0]),
    ensures
        trim_end(t).len() > 0,
    decreases t.len(),
{
    if is_ws(t.last()) {
        assert(t.len() > 1);
        assert(t.drop_last()[0] == t[0]);
        lemma_visible_trim_end(t.drop_last());
    }
}

/// A non-blank part keeps the whole non-blank.
pub proof fn lemma_visible_concat(a: Seq<char>, b: Seq<char>)
    requires
        trim(b).len() > 0,
    ensures
        trim(a + b).len() > 0,
        trim(b + a).len() > 0,
{
    let i = lemma_visible_index(b);
    assert((a + b)[a.len() + i] == b[i]);
    lemma_visible_trim(a + b, a.len() + i);
    assert((b + a)[i] == b[i]);
    lemma_visible_trim(b + a, i);
}

/// A non-blank text has a non-whitespace character.
pub proof fn lemma_visible_index(s: Seq<char>) -> (i: int)
    requires
        trim(s).len() > 0,
    ensures
        0 <= i < s.len(),
        !is_ws(s[i]),
{
    assert(exists|k: int| 0 <= k < s.len() && !is_ws(s[k])) by {
        if forall|k: int| 0 <= k < s.len() ==> is_ws(#[trigger] s[k]) {
            lemma_trim_start_at(s, s.len() as int);
            assert(s.subrange(s.len() as int, s.len() as int).len() == 0);
            assert(trim_end(Seq::<char>::empty()) == Seq::<char>::empty());
        }
    }
    choose|k: int| 0 <= k < s.len() && !is_ws(s[k])
}

} // verus!
