//! Repair of JSON text that another program wrote with lone UTF-16
//! surrogate escapes, which a strict JSON reader refuses.

use vstd::prelude::*;

verus! {

/// The value of an ASCII hex digit.
pub open spec fn hex_val(b: u8) -> Option<int> {
    if 0x30 <= b && b <= 0x39 {
        Some(b - 0x30)
    } else if 0x61 <= b && b <= 0x66 {
        Some(b - 0x61 + 10)
    } else if 0x41 <= b && b <= 0x46 {
        Some(b - 0x41 + 10)
    } else {
        None
    }
}

/// The four hex digits at `s[i..i + 4]`, as a number.
pub open spec fn u4_at(s: Seq<u8>, i: int) -> Option<int> {
    if 0 <= i && i + 4 <= s.len() && hex_val(s[i]) is Some && hex_val(s[i + 1]) is Some && hex_val(
        s[i + 2],
    ) is Some && hex_val(s[i + 3]) is Some {
        Some(
            hex_val(s[i])->0 * 4096 + hex_val(s[i + 1])->0 * 256 + hex_val(s[i + 2])->0 * 16
                + hex_val(s[i + 3])->0,
        )
    } else {
        None
    }
}

/// U+FFFD in UTF-8.
pub open spec fn replacement() -> Seq<u8> {
    seq![0xEFu8, 0xBFu8, 0xBDu8]
}

/// A code point of the supplementary planes in UTF-8.
pub open spec fn utf8_supplementary(code: int) -> Seq<u8> {
    seq![
        (0xF0 + code / 262144) as u8,
        (0x80 + (code / 4096) % 64) as u8,
        (0x80 + (code / 64) % 64) as u8,
        (0x80 + code % 64) as u8,
    ]
}

pub open spec fn is_high_surrogate(cp: int) -> bool {
    0xD800 <= cp <= 0xDBFF
}

pub open spec fn is_low_surrogate(cp: int) -> bool {
    0xDC00 <= cp <= 0xDFFF
}

/// The low surrogate escape that pairs with a high one ending at `i + 6`.
pub open spec fn low_after(s: Seq<u8>, i: int) -> Option<int> {
    if i + 12 <= s.len() && s[i + 6] == 0x5C && s[i + 7] == 0x75 && u4_at(s, i + 8) is Some
        && is_low_surrogate(u4_at(s, i + 8)->0) {
        u4_at(s, i + 8)
    } else {
        None
    }
}

/// The repaired text from `s[i..]`, `in_str` telling whether `i` lies
/// inside a string. Inside strings, a `\u` escape of a surrogate pair
/// becomes the UTF-8 of its code point, a lone surrogate escape becomes
/// U+FFFD, and everything else is copied; a text that ends inside an escape
/// keeps what is there (a trailing lone backslash is kept alone).
pub open spec fn repaired(s: Seq<u8>, i: int, in_str: bool) -> Seq<u8>
    decreases s.len() - i,
{
    if i < 0 || i >= s.len() {
        Seq::empty()
    } else {
        let b = s[i];
        if !in_str {
            seq![b] + repaired(s, i + 1, b == 0x22)
        } else if b == 0x22 {
            seq![b] + repaired(s, i + 1, false)
        } else if b != 0x5C {
            seq![b] + repaired(s, i + 1, true)
        } else if i + 1 >= s.len() {
            seq![0x5Cu8]
        } else if s[i + 1] != 0x75 {
            seq![0x5Cu8, s[i + 1]] + repaired(s, i + 2, true)
        } else if i + 6 > s.len() {
            s.subrange(i, s.len() as int)
        } else {
            match u4_at(s, i + 2) {
                None => s.subrange(i, i + 6) + repaired(s, i + 6, true),
                Some(cp) => if is_high_surrogate(cp) {
                    match low_after(s, i) {
                        Some(low) => utf8_supplementary(
                            0x10000 + (cp - 0xD800) * 1024 + (low - 0xDC00),
                        ) + repaired(s, i + 12, true),
                        None => replacement() + repaired(s, i + 6, true),
                    }
                } else if is_low_surrogate(cp) {
                    replacement() + repaired(s, i + 6, true)
                } else {
                    s.subrange(i, i + 6) + repaired(s, i + 6, true)
                },
            }
        }
    }
}

fn hex_val_exec(b: u8) -> (r: Option<u32>)
    ensures
        match r {
            Some(v) => hex_val(b) == Some(v as int) && v < 16,
            None => hex_val(b) is None,
        },
{
    if 0x30 <= b && b <= 0x39 {
        Some((b - 0x30) as u32)
    } else if 0x61 <= b && b <= 0x66 {
        Some((b - 0x61 + 10) as u32)
    } else if 0x41 <= b && b <= 0x46 {
        Some((b - 0x41 + 10) as u32)
    } else {
        None
    }
}

fn u4_at_exec(s: &[u8], i: usize) -> (r: Option<u32>)
    ensures
        match r {
            Some(v) => u4_at(s@, i as int) == Some(v as int) && v < 65536,
            None => u4_at(s@, i as int) is None,
        },
{
    let n = s.len();
    if i > n || n - i < 4 {
        return None;
    }
    let a = match hex_val_exec(s[i]) {
        Some(v) => v,
        None => {
            return None;
        },
    };
    let b = match hex_val_exec(s[i + 1]) {
        Some(v) => v,
        None => {
            return None;
        },
    };
    let c = match hex_val_exec(s[i + 2]) {
        Some(v) => v,
        None => {
            return None;
        },
    };
    let d = match hex_val_exec(s[i + 3]) {
        Some(v) => v,
        None => {
            return None;
        },
    };
    Some(a * 4096 + b * 256 + c * 16 + d)
}

fn push_all(out: &mut Vec<u8>, s: &[u8], from: usize, to: usize)
    requires
        from <= to <= s@.len(),
    ensures
        final(out)@ == old(out)@ + s@.subrange(from as int, to as int),
{
    let mut k: usize = from;
    while k < to
        invariant
            from <= k <= to <= s@.len(),
            out@ == old(out)@ + s@.subrange(from as int, k as int),
        decreases to - k,
    {
        out.push(s[k]);
        k = k + 1;
        assert(out@ =~= old(out)@ + s@.subrange(from as int, k as int));
    }
}

/// JSON text with every lone surrogate escape inside its strings replaced,
/// so that a strict reader accepts it; see `repaired`.
#[verifier::rlimit(80)]
pub fn sanitize_json_unicode_surrogates(input: &[u8]) -> (r: Vec<u8>)
    ensures
        r@ == repaired(input@, 0, false),
{
    let n = input.len();
    let mut out: Vec<u8> = Vec::new();
    let mut i: usize = 0;
    let mut in_str = false;
    while i < n
        invariant
            n == input@.len(),
            i <= n,
            out@ + repaired(input@, i as int, in_str) == repaired(input@, 0, false),
        decreases n - i,
    {
        let ghost before = out@;
        let ghost rest = repaired(input@, i as int, in_str);
        let b = input[i];
        if !in_str {
            out.push(b);
            in_str = b == 0x22;
            i = i + 1;
            assert(before + rest =~= out@ + repaired(input@, i as int, in_str));
            continue;
        }
        if b == 0x22 {
            out.push(b);
            in_str = false;
            i = i + 1;
            assert(before + rest =~= out@ + repaired(input@, i as int, in_str));
            continue;
        }
        if b != 0x5C {
            out.push(b);
            i = i + 1;
            assert(before + rest =~= out@ + repaired(input@, i as int, in_str));
            continue;
        }
        if i + 1 >= n {
            out.push(0x5C);
            assert(out@ =~= before + rest);
            return out;
        }
        let next = input[i + 1];
        if next != 0x75 {
            out.push(0x5C);
            out.push(next);
            i = i + 2;
            assert(before + rest =~= out@ + repaired(input@, i as int, in_str));
            continue;
        }
        if n - i < 6 {
            push_all(&mut out, input, i, n);
            assert(out@ =~= before + rest);
            return out;
        }
        match u4_at_exec(input, i + 2) {
            None => {
                push_all(&mut out, input, i, i + 6);
                i = i + 6;
                assert(before + rest =~= out@ + repaired(input@, i as int, in_str));
            },
            Some(cp) => {
                if 0xD800 <= cp && cp <= 0xDBFF {
                    let mut paired = false;
                    if n - i >= 12 && input[i + 6] == 0x5C && input[i + 7] == 0x75 {
                        match u4_at_exec(input, i + 8) {
                            Some(low) => {
                                if 0xDC00 <= low && low <= 0xDFFF {
                                    let code: u32 = 0x10000 + (cp - 0xD800) * 1024 + (low - 0xDC00);
                                    out.push((0xF0 + code / 262144) as u8);
                                    out.push((0x80 + (code / 4096) % 64) as u8);
                                    out.push((0x80 + (code / 64) % 64) as u8);
                                    out.push((0x80 + code % 64) as u8);
                                    proof {
                                        assert(code < 0x110000);
                                        assert(code / 262144 <= 4) by (nonlinear_arith)
                                            requires
                                                code < 0x110000,
                                        ;
                                    }
                                    paired = true;
                                    i = i + 12;
                                    assert(before + rest =~= out@ + repaired(input@, i as int, in_str));
                                }
                            },
                            None => {},
                        }
                    }
                    if !paired {
                        out.push(0xEF);
                        out.push(0xBF);
                        out.push(0xBD);
                        i = i + 6;
                        assert(before + rest =~= out@ + repaired(input@, i as int, in_str));
                    }
                } else if 0xDC00 <= cp && cp <= 0xDFFF {
                    out.push(0xEF);
                    out.push(0xBF);
                    out.push(0xBD);
                    i = i + 6;
                    assert(before + rest =~= out@ + repaired(input@, i as int, in_str));
                } else {
                    push_all(&mut out, input, i, i + 6);
                    i = i + 6;
                    assert(before + rest =~= out@ + repaired(input@, i as int, in_str));
                }
            },
        }
    }
    assert(out@ =~= out@ + repaired(input@, i as int, in_str));
    out
}

} // verus!
