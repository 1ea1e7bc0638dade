use vstd::prelude::*;
use vstd::slice::slice_subrange;
use vstd::slice::slice_to_vec;
use crate::quote::Quote;
use crate::quote::QuoteError;
use crate::quote::QuoteView;
use crate::quote::opt_bytes_view;
use crate::quote::quotes_view;

verus! {

// The response body is handled as a byte sequence.  The functions below
// define, as spec functions, a recursive-descent reading of the quote
// grammar: a JSON array of objects, each carrying a `symbol` string, a
// `price` number, optionally a `change` number, and arbitrary further
// members that are read over and ignored.  Each executable function
// returns exactly what its spec counterpart denotes.

/// JSON insignificant whitespace: space, tab, line feed, carriage return.
pub open spec fn is_ws(b: u8) -> bool {
    b == 32 || b == 9 || b == 10 || b == 13
}

/// ASCII decimal digit.
pub open spec fn is_digit(b: u8) -> bool {
    48 <= b <= 57
}

/// Index of the first byte at or after `i` that is not whitespace.
pub open spec fn spec_skip_ws(s: Seq<u8>, i: int) -> int
    decreases s.len() - i,
{
    if 0 <= i < s.len() && is_ws(s[i]) {
        spec_skip_ws(s, i + 1)
    } else {
        i
    }
}

/// Index of the first byte at or after `i` that is not a digit.
pub open spec fn spec_skip_digits(s: Seq<u8>, i: int) -> int
    decreases s.len() - i,
{
    if 0 <= i < s.len() && is_digit(s[i]) {
        spec_skip_digits(s, i + 1)
    } else {
        i
    }
}

fn skip_ws(s: &[u8], i: usize) -> (r: usize)
    requires
        i <= s@.len(),
    ensures
        r == spec_skip_ws(s@, i as int),
        i <= r <= s@.len(),
    decreases s@.len() - i,
{
    if i < s.len() {
        let b = s[i];
        if b == 32 || b == 9 || b == 10 || b == 13 {
            return skip_ws(s, i + 1);
        }
    }
    i
}

fn skip_digits(s: &[u8], i: usize) -> (r: usize)
    requires
        i <= s@.len(),
    ensures
        r == spec_skip_digits(s@, i as int),
        i <= r <= s@.len(),
        i < s@.len() && is_digit(s@[i as int]) ==> r >= i + 1,
    decreases s@.len() - i,
{
    if i < s.len() {
        let b = s[i];
        if 48 <= b && b <= 57 {
            return skip_digits(s, i + 1);
        }
    }
    i
}

/// Value of an ASCII hex digit, if the byte is one.
pub open spec fn hex_val(b: u8) -> Option<u32> {
    if 48 <= b <= 57 {
        Some((b - 48) as u32)
    } else if 65 <= b <= 70 {
        Some((b - 55) as u32)
    } else if 97 <= b <= 102 {
        Some((b - 87) as u32)
    } else {
        None
    }
}

/// Value of the four hex digits at `i`, if they are there.
pub open spec fn hex4(s: Seq<u8>, i: int) -> Option<u32> {
    if 0 <= i && i + 4 <= s.len() && hex_val(s[i]) is Some && hex_val(s[i + 1]) is Some
        && hex_val(s[i + 2]) is Some && hex_val(s[i + 3]) is Some {
        Some(
            (hex_val(s[i]).unwrap() * 4096 + hex_val(s[i + 1]).unwrap() * 256 + hex_val(
                s[i + 2],
            ).unwrap() * 16 + hex_val(s[i + 3]).unwrap()) as u32,
        )
    } else {
        None
    }
}

fn hex_val_exec(b: u8) -> (r: Option<u32>)
    ensures
        r == hex_val(b),
{
    if 48 <= b && b <= 57 {
        Some((b - 48) as u32)
    } else if 65 <= b && b <= 70 {
        Some((b - 55) as u32)
    } else if 97 <= b && b <= 102 {
        Some((b - 87) as u32)
    } else {
        None
    }
}

fn hex4_exec(s: &[u8], i: usize) -> (r: Option<u32>)
    requires
        i <= s@.len(),
    ensures
        r == hex4(s@, i as int),
{
    if s.len() - i < 4 {
        return None;
    }
    let h0 = hex_val_exec(s[i]);
    let h1 = hex_val_exec(s[i + 1]);
    let h2 = hex_val_exec(s[i + 2]);
    let h3 = hex_val_exec(s[i + 3]);
    match (h0, h1, h2, h3) {
        (Some(a), Some(b), Some(c), Some(d)) => Some(a * 4096 + b * 256 + c * 16 + d),
        _ => None,
    }
}

/// The byte that a single-character escape stands for.
pub open spec fn esc_byte(b: u8) -> Option<u8> {
    if b == 34 {
        Some(34u8)
    } else if b == 92 {
        Some(92u8)
    } else if b == 47 {
        Some(47u8)
    } else if b == 98 {
        Some(8u8)
    } else if b == 102 {
        Some(12u8)
    } else if b == 110 {
        Some(10u8)
    } else if b == 114 {
        Some(13u8)
    } else if b == 116 {
        Some(9u8)
    } else {
        None
    }
}

fn esc_byte_exec(b: u8) -> (r: Option<u8>)
    ensures
        r == esc_byte(b),
{
    if b == 34 {
        Some(34u8)
    } else if b == 92 {
        Some(92u8)
    } else if b == 47 {
        Some(47u8)
    } else if b == 98 {
        Some(8u8)
    } else if b == 102 {
        Some(12u8)
    } else if b == 110 {
        Some(10u8)
    } else if b == 114 {
        Some(13u8)
    } else if b == 116 {
        Some(9u8)
    } else {
        None
    }
}

/// UTF-8 encoding of a code point below 0x110000.
pub open spec fn utf8_enc(c: u32) -> Seq<u8> {
    if c < 0x80 {
        seq![c as u8]
    } else if c < 0x800 {
        seq![(0xC0u32 | (c >> 6)) as u8, (0x80u32 | (c & 0x3F)) as u8]
    } else if c < 0x10000 {
        seq![
            (0xE0u32 | (c >> 12)) as u8,
            (0x80u32 | ((c >> 6) & 0x3F)) as u8,
            (0x80u32 | (c & 0x3F)) as u8,
        ]
    } else {
        seq![
            (0xF0u32 | (c >> 18)) as u8,
            (0x80u32 | ((c >> 12) & 0x3F)) as u8,
            (0x80u32 | ((c >> 6) & 0x3F)) as u8,
            (0x80u32 | (c & 0x3F)) as u8,
        ]
    }
}

fn push_utf8(v: &mut Vec<u8>, c: u32)
    ensures
        final(v)@ == old(v)@ + utf8_enc(c),
{
    if c < 0x80 {
        v.push(c as u8);
        assert(v@ =~= old(v)@ + utf8_enc(c));
    } else if c < 0x800 {
        v.push((0xC0u32 | (c >> 6)) as u8);
        v.push((0x80u32 | (c & 0x3F)) as u8);
        assert(v@ =~= old(v)@ + utf8_enc(c));
    } else if c < 0x10000 {
        v.push((0xE0u32 | (c >> 12)) as u8);
        v.push((0x80u32 | ((c >> 6) & 0x3F)) as u8);
        v.push((0x80u32 | (c & 0x3F)) as u8);
        assert(v@ =~= old(v)@ + utf8_enc(c));
    } else {
        v.push((0xF0u32 | (c >> 18)) as u8);
        v.push((0x80u32 | ((c >> 12) & 0x3F)) as u8);
        v.push((0x80u32 | ((c >> 6) & 0x3F)) as u8);
        v.push((0x80u32 | (c & 0x3F)) as u8);
        assert(v@ =~= old(v)@ + utf8_enc(c));
    }
}

/// Reads string contents from `i` (just past the opening quote) up to and
/// past the closing quote, decoding escapes; `acc` collects the decoded
/// bytes.  `None` on an unterminated string, a bad escape, a lone
/// surrogate, or an unescaped control byte.
pub open spec fn spec_scan_string(s: Seq<u8>, i: int, acc: Seq<u8>) -> Option<(Seq<u8>, int)>
    decreases s.len() - i,
{
    if !(0 <= i < s.len()) {
        None
    } else if s[i] == 34 {
        Some((acc, i + 1))
    } else if s[i] == 92 {
        if !(i + 1 < s.len()) {
            None
        } else if esc_byte(s[i + 1]) is Some {
            spec_scan_string(s, i + 2, acc.push(esc_byte(s[i + 1]).unwrap()))
        } else if s[i + 1] == 117 {
            match hex4(s, i + 2) {
                None => None,
                Some(h) => if 0xD800 <= h < 0xDC00 {
                    if i + 7 < s.len() && s[i + 6] == 92 && s[i + 7] == 117 {
                        match hex4(s, i + 8) {
                            None => None,
                            Some(l) => if 0xDC00 <= l < 0xE000 {
                                spec_scan_string(
                                    s,
                                    i + 12,
                                    acc + utf8_enc(
                                        (0x10000 + (h - 0xD800) * 0x400 + (l - 0xDC00)) as u32,
                                    ),
                                )
                            } else {
                                None
                            },
                        }
                    } else {
                        None
                    }
                } else if 0xDC00 <= h < 0xE000 {
                    None
                } else {
                    spec_scan_string(s, i + 6, acc + utf8_enc(h))
                },
            }
        } else {
            None
        }
    } else if s[i] < 32 {
        None
    } else {
        spec_scan_string(s, i + 1, acc.push(s[i]))
    }
}

fn scan_string(s: &[u8], i: usize, acc: Vec<u8>) -> (r: Option<(Vec<u8>, usize)>)
    requires
        i <= s@.len(),
    ensures
        match r {
            None => spec_scan_string(s@, i as int, acc@) is None,
            Some((v, j)) => spec_scan_string(s@, i as int, acc@) == Some((v@, j as int)) && i < j
                <= s@.len(),
        },
    decreases s@.len() - i,
{
    if i >= s.len() {
        return None;
    }
    let b = s[i];
    if b == 34 {
        return Some((acc, i + 1));
    }
    if b == 92 {
        if i + 1 >= s.len() {
            return None;
        }
        let e = s[i + 1];
        if let Some(x) = esc_byte_exec(e) {
            let mut acc2 = acc;
            acc2.push(x);
            return scan_string(s, i + 2, acc2);
        }
        if e == 117 {
            match hex4_exec(s, i + 2) {
                None => None,
                Some(h) => {
                    if 0xD800 <= h && h < 0xDC00 {
                        if s.len() - i > 7 && s[i + 6] == 92 && s[i + 7] == 117 {
                            match hex4_exec(s, i + 8) {
                                None => None,
                                Some(l) => {
                                    if 0xDC00 <= l && l < 0xE000 {
                                        let c: u32 = 0x10000 + (h - 0xD800) * 0x400 + (l - 0xDC00);
                                        let mut acc2 = acc;
                                        push_utf8(&mut acc2, c);
                                        scan_string(s, i + 12, acc2)
                                    } else {
                                        None
                                    }
                                },
                            }
                        } else {
                            None
                        }
                    } else if 0xDC00 <= h && h < 0xE000 {
                        None
                    } else {
                        let mut acc2 = acc;
                        push_utf8(&mut acc2, h);
                        scan_string(s, i + 6, acc2)
                    }
                },
            }
        } else {
            None
        }
    } else if b < 32 {
        None
    } else {
        let mut acc2 = acc;
        acc2.push(b);
        scan_string(s, i + 1, acc2)
    }
}

/// End of the optional fraction part starting at `k`; `None` when a
/// decimal point is not followed by a digit.
pub open spec fn spec_after_frac(s: Seq<u8>, k: int) -> Option<int> {
    if 0 <= k < s.len() && s[k] == 46 {
        let d = spec_skip_digits(s, k + 1);
        if d > k + 1 {
            Some(d)
        } else {
            None
        }
    } else {
        Some(k)
    }
}

/// End of the optional exponent part starting at `k`; `None` when an
/// exponent marker is not followed by a digit.
pub open spec fn spec_after_exp(s: Seq<u8>, k: int) -> Option<int> {
    if 0 <= k < s.len() && (s[k] == 101 || s[k] == 69) {
        let m = if k + 1 < s.len() && (s[k + 1] == 43 || s[k + 1] == 45) {
            k + 2
        } else {
            k + 1
        };
        let d = spec_skip_digits(s, m);
        if d > m {
            Some(d)
        } else {
            None
        }
    } else {
        Some(k)
    }
}

/// End of the JSON number token starting at `i`, or `None` when no
/// well-formed number starts there.
pub open spec fn spec_scan_number(s: Seq<u8>, i: int) -> Option<int> {
    let j = if 0 <= i < s.len() && s[i] == 45 {
        i + 1
    } else {
        i
    };
    if !(0 <= j < s.len() && is_digit(s[j])) {
        None
    } else {
        let ie = if s[j] == 48 {
            j + 1
        } else {
            spec_skip_digits(s, j)
        };
        match spec_after_frac(s, ie) {
            None => None,
            Some(fe) => spec_after_exp(s, fe),
        }
    }
}

fn after_frac(s: &[u8], k: usize) -> (r: Option<usize>)
    requires
        k <= s@.len(),
    ensures
        match r {
            None => spec_after_frac(s@, k as int) is None,
            Some(e) => spec_after_frac(s@, k as int) == Some(e as int) && k <= e <= s@.len(),
        },
{
    if k < s.len() && s[k] == 46 {
        let d = skip_digits(s, k + 1);
        if d > k + 1 {
            Some(d)
        } else {
            None
        }
    } else {
        Some(k)
    }
}

fn after_exp(s: &[u8], k: usize) -> (r: Option<usize>)
    requires
        k <= s@.len(),
    ensures
        match r {
            None => spec_after_exp(s@, k as int) is None,
            Some(e) => spec_after_exp(s@, k as int) == Some(e as int) && k <= e <= s@.len(),
        },
{
    if k < s.len() && (s[k] == 101 || s[k] == 69) {
        let m = if k + 1 < s.len() && (s[k + 1] == 43 || s[k + 1] == 45) {
            k + 2
        } else {
            k + 1
        };
        let d = skip_digits(s, m);
        if d > m {
            Some(d)
        } else {
            None
        }
    } else {
        Some(k)
    }
}

fn scan_number(s: &[u8], i: usize) -> (r: Option<usize>)
    requires
        i <= s@.len(),
    ensures
        match r {
            None => spec_scan_number(s@, i as int) is None,
            Some(e) => spec_scan_number(s@, i as int) == Some(e as int) && i < e <= s@.len(),
        },
{
    let j = if i < s.len() && s[i] == 45 {
        i + 1
    } else {
        i
    };
    if !(j < s.len() && 48 <= s[j] && s[j] <= 57) {
        return None;
    }
    let ie = if s[j] == 48 {
        j + 1
    } else {
        skip_digits(s, j)
    };
    match after_frac(s, ie) {
        None => None,
        Some(fe) => after_exp(s, fe),
    }
}

/// End of the JSON value starting at `i` (no leading whitespace), or
/// `None` when no well-formed value starts there.  String contents are
/// read with the same escape rules as captured strings.
pub open spec fn spec_skip_value(s: Seq<u8>, i: int) -> Option<int>
    decreases s.len() - i, 0int,
{
    if !(0 <= i < s.len()) {
        None
    } else if s[i] == 34 {
        match spec_scan_string(s, i + 1, Seq::empty()) {
            None => None,
            Some((c, j)) => Some(j),
        }
    } else if s[i] == 45 || is_digit(s[i]) {
        spec_scan_number(s, i)
    } else if s[i] == 116 {
        if i + 4 <= s.len() && s[i + 1] == 114 && s[i + 2] == 117 && s[i + 3] == 101 {
            Some(i + 4)
        } else {
            None
        }
    } else if s[i] == 102 {
        if i + 5 <= s.len() && s[i + 1] == 97 && s[i + 2] == 108 && s[i + 3] == 115 && s[i + 4]
            == 101 {
            Some(i + 5)
        } else {
            None
        }
    } else if s[i] == 110 {
        if i + 4 <= s.len() && s[i + 1] == 117 && s[i + 2] == 108 && s[i + 3] == 108 {
            Some(i + 4)
        } else {
            None
        }
    } else if s[i] == 91 {
        spec_skip_elems(s, i + 1, true)
    } else if s[i] == 123 {
        spec_skip_members(s, i + 1, true)
    } else {
        None
    }
}

/// End of the rest of a JSON array whose opening bracket stands before
/// `i`; `first` says whether no element has been read yet.
pub open spec fn spec_skip_elems(s: Seq<u8>, i: int, first: bool) -> Option<int>
    decreases s.len() - i, 1int,
{
    let j = spec_skip_ws(s, i);
    if !(0 <= i && i <= j && j <= s.len()) {
        None
    } else if j < s.len() && s[j] == 93 && first {
        Some(j + 1)
    } else {
        match spec_skip_value(s, j) {
            None => None,
            Some(v) => {
                let k = spec_skip_ws(s, v);
                if !(j < v && v <= k && k <= s.len()) {
                    None
                } else if k < s.len() && s[k] == 93 {
                    Some(k + 1)
                } else if k < s.len() && s[k] == 44 {
                    spec_skip_elems(s, k + 1, false)
                } else {
                    None
                }
            },
        }
    }
}

/// End of the rest of a JSON object whose opening brace stands before
/// `i`; `first` says whether no member has been read yet.
pub open spec fn spec_skip_members(s: Seq<u8>, i: int, first: bool) -> Option<int>
    decreases s.len() - i, 1int,
{
    let j = spec_skip_ws(s, i);
    if !(0 <= i && i <= j && j <= s.len()) {
        None
    } else if j < s.len() && s[j] == 125 && first {
        Some(j + 1)
    } else if !(j < s.len() && s[j] == 34) {
        None
    } else {
        match spec_scan_string(s, j + 1, Seq::empty()) {
            None => None,
            Some((key, k1)) => {
                let k2 = spec_skip_ws(s, k1);
                if !(j + 1 < k1 && k1 <= k2 && k2 <= s.len() && k2 < s.len() && s[k2] == 58) {
                    None
                } else {
                    let k3 = spec_skip_ws(s, k2 + 1);
                    if !(k2 < k3 && k3 <= s.len()) {
                        None
                    } else {
                        match spec_skip_value(s, k3) {
                            None => None,
                            Some(v) => {
                                let k4 = spec_skip_ws(s, v);
                                if !(k3 < v && v <= k4 && k4 <= s.len()) {
                                    None
                                } else if k4 < s.len() && s[k4] == 125 {
                                    Some(k4 + 1)
                                } else if k4 < s.len() && s[k4] == 44 {
                                    spec_skip_members(s, k4 + 1, false)
                                } else {
                                    None
                                }
                            },
                        }
                    }
                }
            },
        }
    }
}

fn skip_value(s: &[u8], i: usize) -> (r: Option<usize>)
    requires
        i <= s@.len(),
    ensures
        match r {
            None => spec_skip_value(s@, i as int) is None,
            Some(e) => spec_skip_value(s@, i as int) == Some(e as int) && i < e <= s@.len(),
        },
    decreases s@.len() - i, 0int,
{
    if i >= s.len() {
        return None;
    }
    let b = s[i];
    if b == 34 {
        match scan_string(s, i + 1, Vec::new()) {
            None => None,
            Some((_c, j)) => Some(j),
        }
    } else if b == 45 || (48 <= b && b <= 57) {
        scan_number(s, i)
    } else if b == 116 {
        if s.len() - i >= 4 && s[i + 1] == 114 && s[i + 2] == 117 && s[i + 3] == 101 {
            Some(i + 4)
        } else {
            None
        }
    } else if b == 102 {
        if s.len() - i >= 5 && s[i + 1] == 97 && s[i + 2] == 108 && s[i + 3] == 115 && s[i + 4]
            == 101 {
            Some(i + 5)
        } else {
            None
        }
    } else if b == 110 {
        if s.len() - i >= 4 && s[i + 1] == 117 && s[i + 2] == 108 && s[i + 3] == 108 {
            Some(i + 4)
        } else {
            None
        }
    } else if b == 91 {
        skip_elems(s, i + 1, true)
    } else if b == 123 {
        skip_members(s, i + 1, true)
    } else {
        None
    }
}

fn skip_elems(s: &[u8], i: usize, first: bool) -> (r: Option<usize>)
    requires
        i <= s@.len(),
    ensures
        match r {
            None => spec_skip_elems(s@, i as int, first) is None,
            Some(e) => spec_skip_elems(s@, i as int, first) == Some(e as int) && i <= e
                <= s@.len(),
        },
    decreases s@.len() - i, 1int,
{
    let j = skip_ws(s, i);
    if j < s.len() && s[j] == 93 && first {
        return Some(j + 1);
    }
    match skip_value(s, j) {
        None => None,
        Some(v) => {
            let k = skip_ws(s, v);
            if k < s.len() && s[k] == 93 {
                Some(k + 1)
            } else if k < s.len() && s[k] == 44 {
                skip_elems(s, k + 1, false)
            } else {
                None
            }
        },
    }
}

fn skip_members(s: &[u8], i: usize, first: bool) -> (r: Option<usize>)
    requires
        i <= s@.len(),
    ensures
        match r {
            None => spec_skip_members(s@, i as int, first) is None,
            Some(e) => spec_skip_members(s@, i as int, first) == Some(e as int) && i <= e
                <= s@.len(),
        },
    decreases s@.len() - i, 1int,
{
    let j = skip_ws(s, i);
    if j < s.len() && s[j] == 125 && first {
        return Some(j + 1);
    }
    if !(j < s.len() && s[j] == 34) {
        return None;
    }
    match scan_string(s, j + 1, Vec::new()) {
        None => None,
        Some((_key, k1)) => {
            let k2 = skip_ws(s, k1);
            if !(k2 < s.len() && s[k2] == 58) {
                return None;
            }
            let k3 = skip_ws(s, k2 + 1);
            match skip_value(s, k3) {
                None => None,
                Some(v) => {
                    let k4 = skip_ws(s, v);
                    if k4 < s.len() && s[k4] == 125 {
                        Some(k4 + 1)
                    } else if k4 < s.len() && s[k4] == 44 {
                        skip_members(s, k4 + 1, false)
                    } else {
                        None
                    }
                },
            }
        },
    }
}

/// The member name whose string value is the ticker symbol.
pub open spec fn symbol_key() -> Seq<u8> {
    seq![115u8, 121u8, 109u8, 98u8, 111u8, 108u8]
}

/// The member name whose number value is the price.
pub open spec fn price_key() -> Seq<u8> {
    seq![112u8, 114u8, 105u8, 99u8, 101u8]
}

/// The member name whose number value is the price change.
pub open spec fn change_key() -> Seq<u8> {
    seq![99u8, 104u8, 97u8, 110u8, 103u8, 101u8]
}

fn is_symbol_key(k: &Vec<u8>) -> (r: bool)
    ensures
        r == (k@ == symbol_key()),
{
    if k.len() == 6 && k[0] == 115 && k[1] == 121 && k[2] == 109 && k[3] == 98 && k[4] == 111
        && k[5] == 108 {
        proof {
            assert(k@ =~= symbol_key());
        }
        true
    } else {
        false
    }
}

fn is_price_key(k: &Vec<u8>) -> (r: bool)
    ensures
        r == (k@ == price_key()),
{
    if k.len() == 5 && k[0] == 112 && k[1] == 114 && k[2] == 105 && k[3] == 99 && k[4] == 101 {
        proof {
            assert(k@ =~= price_key());
        }
        true
    } else {
        false
    }
}

fn is_change_key(k: &Vec<u8>) -> (r: bool)
    ensures
        r == (k@ == change_key()),
{
    if k.len() == 6 && k[0] == 99 && k[1] == 104 && k[2] == 97 && k[3] == 110 && k[4] == 103
        && k[5] == 101 {
        proof {
            assert(k@ =~= change_key());
        }
        true
    } else {
        false
    }
}

/// Reads the rest of a quote object from `i` (its opening brace stands
/// before `i`), keeping the three consumed fields.  A repeated consumed
/// field, a `symbol` that is not a string, or a `price` or `change`
/// that is not a number makes the whole element malformed; any other
/// member is read over and ignored.
pub open spec fn spec_parse_qmembers(
    s: Seq<u8>,
    i: int,
    first: bool,
    sym: Option<Seq<u8>>,
    price: Option<Seq<u8>>,
    change: Option<Seq<u8>>,
) -> Option<(Option<Seq<u8>>, Option<Seq<u8>>, Option<Seq<u8>>, int)>
    decreases s.len() - i,
{
    let j = spec_skip_ws(s, i);
    if !(0 <= i && i <= j && j <= s.len()) {
        None
    } else if j < s.len() && s[j] == 125 && first {
        Some((sym, price, change, j + 1))
    } else if !(j < s.len() && s[j] == 34) {
        None
    } else {
        match spec_scan_string(s, j + 1, Seq::empty()) {
            None => None,
            Some((key, k1)) => {
                let k2 = spec_skip_ws(s, k1);
                if !(j + 1 < k1 && k1 <= k2 && k2 <= s.len() && k2 < s.len() && s[k2] == 58) {
                    None
                } else {
                    let k3 = spec_skip_ws(s, k2 + 1);
                    if !(k2 < k3 && k3 <= s.len()) {
                        None
                    } else {
                        let vr = if key == symbol_key() {
                            if sym is Some {
                                None
                            } else if k3 < s.len() && s[k3] == 34 {
                                match spec_scan_string(s, k3 + 1, Seq::empty()) {
                                    None => None,
                                    Some((c, e)) => Some((Some(c), price, change, e)),
                                }
                            } else {
                                None
                            }
                        } else if key == price_key() {
                            if price is Some {
                                None
                            } else {
                                match spec_scan_number(s, k3) {
                                    None => None,
                                    Some(e) => Some((sym, Some(s.subrange(k3, e)), change, e)),
                                }
                            }
                        } else if key == change_key() {
                            if change is Some {
                                None
                            } else {
                                match spec_scan_number(s, k3) {
                                    None => None,
                                    Some(e) => Some((sym, price, Some(s.subrange(k3, e)), e)),
                                }
                            }
                        } else {
                            match spec_skip_value(s, k3) {
                                None => None,
                                Some(e) => Some((sym, price, change, e)),
                            }
                        };
                        match vr {
                            None => None,
                            Some((sym2, price2, change2, e)) => {
                                let k4 = spec_skip_ws(s, e);
                                if !(k3 < e && e <= k4 && k4 <= s.len()) {
                                    None
                                } else if k4 < s.len() && s[k4] == 125 {
                                    Some((sym2, price2, change2, k4 + 1))
                                } else if k4 < s.len() && s[k4] == 44 {
                                    spec_parse_qmembers(s, k4 + 1, false, sym2, price2, change2)
                                } else {
                                    None
                                }
                            },
                        }
                    }
                }
            },
        }
    }
}

/// Reads the rest of the quote array from `i` (its opening bracket
/// stands before `i`), appending each well-formed element to `acc`; an
/// element without a `symbol` string or a `price` number is malformed.
pub open spec fn spec_parse_qelems(s: Seq<u8>, i: int, first: bool, acc: Seq<QuoteView>) -> Option<
    (Seq<QuoteView>, int),
>
    decreases s.len() - i,
{
    let j = spec_skip_ws(s, i);
    if !(0 <= i && i <= j && j <= s.len()) {
        None
    } else if j < s.len() && s[j] == 93 && first {
        Some((acc, j + 1))
    } else if !(j < s.len() && s[j] == 123) {
        None
    } else {
        match spec_parse_qmembers(s, j + 1, true, None, None, None) {
            None => None,
            Some((sym, price, change, e)) => {
                if !(sym is Some && price is Some) {
                    None
                } else {
                    let q = QuoteView {
                        symbol: sym.unwrap(),
                        price: price.unwrap(),
                        change,
                    };
                    let k = spec_skip_ws(s, e);
                    if !(j + 1 < e && e <= k && k <= s.len()) {
                        None
                    } else if k < s.len() && s[k] == 93 {
                        Some((acc.push(q), k + 1))
                    } else if k < s.len() && s[k] == 44 {
                        spec_parse_qelems(s, k + 1, false, acc.push(q))
                    } else {
                        None
                    }
                }
            },
        }
    }
}

/// What the whole response body denotes: the sequence of quotes, when
/// the body is a well-formed quote array with nothing but whitespace
/// around it, and nothing otherwise.
pub open spec fn spec_parse_quotes(s: Seq<u8>) -> Option<Seq<QuoteView>> {
    let j = spec_skip_ws(s, 0);
    if !(j < s.len() && s[j] == 91) {
        None
    } else {
        match spec_parse_qelems(s, j + 1, true, Seq::empty()) {
            None => None,
            Some((qs, e)) => {
                let k = spec_skip_ws(s, e);
                if k == s.len() {
                    Some(qs)
                } else {
                    None
                }
            },
        }
    }
}

fn parse_qmembers(
    s: &[u8],
    i: usize,
    first: bool,
    sym: Option<Vec<u8>>,
    price: Option<Vec<u8>>,
    change: Option<Vec<u8>>,
) -> (r: Option<(Option<Vec<u8>>, Option<Vec<u8>>, Option<Vec<u8>>, usize)>)
    requires
        i <= s@.len(),
    ensures
        match r {
            None => spec_parse_qmembers(
                s@,
                i as int,
                first,
                opt_bytes_view(sym),
                opt_bytes_view(price),
                opt_bytes_view(change),
            ) is None,
            Some((s2, p2, c2, e)) => spec_parse_qmembers(
                s@,
                i as int,
                first,
                opt_bytes_view(sym),
                opt_bytes_view(price),
                opt_bytes_view(change),
            ) == Some((opt_bytes_view(s2), opt_bytes_view(p2), opt_bytes_view(c2), e as int)) && i
                < e <= s@.len(),
        },
    decreases s@.len() - i,
{
    let j = skip_ws(s, i);
    if j < s.len() && s[j] == 125 && first {
        return Some((sym, price, change, j + 1));
    }
    if !(j < s.len() && s[j] == 34) {
        return None;
    }
    match scan_string(s, j + 1, Vec::new()) {
        None => None,
        Some((key, k1)) => {
            let k2 = skip_ws(s, k1);
            if !(k2 < s.len() && s[k2] == 58) {
                return None;
            }
            let k3 = skip_ws(s, k2 + 1);
            let vr: Option<(Option<Vec<u8>>, Option<Vec<u8>>, Option<Vec<u8>>, usize)> = if
                is_symbol_key(&key) {
                if sym.is_some() {
                    None
                } else if k3 < s.len() && s[k3] == 34 {
                    match scan_string(s, k3 + 1, Vec::new()) {
                        None => None,
                        Some((c, e)) => Some((Some(c), price, change, e)),
                    }
                } else {
                    None
                }
            } else if is_price_key(&key) {
                if price.is_some() {
                    None
                } else {
                    match scan_number(s, k3) {
                        None => None,
                        Some(e) => Some(
                            (sym, Some(slice_to_vec(slice_subrange(s, k3, e))), change, e),
                        ),
                    }
                }
            } else if is_change_key(&key) {
                if change.is_some() {
                    None
                } else {
                    match scan_number(s, k3) {
                        None => None,
                        Some(e) => Some((sym, price, Some(slice_to_vec(slice_subrange(s, k3, e))), e)),
                    }
                }
            } else {
                match skip_value(s, k3) {
                    None => None,
                    Some(e) => Some((sym, price, change, e)),
                }
            };
            match vr {
                None => None,
                Some((sym2, price2, change2, e)) => {
                    let k4 = skip_ws(s, e);
                    if k4 < s.len() && s[k4] == 125 {
                        Some((sym2, price2, change2, k4 + 1))
                    } else if k4 < s.len() && s[k4] == 44 {
                        parse_qmembers(s, k4 + 1, false, sym2, price2, change2)
                    } else {
                        None
                    }
                },
            }
        },
    }
}

fn parse_qelems(s: &[u8], i: usize, first: bool, acc: Vec<Quote>) -> (r: Option<(Vec<Quote>, usize)>)
    requires
        i <= s@.len(),
    ensures
        match r {
            None => spec_parse_qelems(s@, i as int, first, quotes_view(acc@)) is None,
            Some((v, e)) => spec_parse_qelems(s@, i as int, first, quotes_view(acc@)) == Some(
                (quotes_view(v@), e as int),
            ) && i <= e <= s@.len(),
        },
    decreases s@.len() - i,
{
    let j = skip_ws(s, i);
    if j < s.len() && s[j] == 93 && first {
        return Some((acc, j + 1));
    }
    if !(j < s.len() && s[j] == 123) {
        return None;
    }
    match parse_qmembers(s, j + 1, true, None, None, None) {
        None => None,
        Some((sym, price, change, e)) => {
            match (sym, price) {
                (Some(sv), Some(pv)) => {
                    let q = Quote { symbol: sv, price: pv, change };
                    let k = skip_ws(s, e);
                    if k < s.len() && s[k] == 93 {
                        let mut acc2 = acc;
                        proof {
                            assert(quotes_view(acc2@).push(q@) =~= quotes_view(acc2@.push(q)));
                        }
                        acc2.push(q);
                        Some((acc2, k + 1))
                    } else if k < s.len() && s[k] == 44 {
                        let mut acc2 = acc;
                        proof {
                            assert(quotes_view(acc2@).push(q@) =~= quotes_view(acc2@.push(q)));
                        }
                        acc2.push(q);
                        parse_qelems(s, k + 1, false, acc2)
                    } else {
                        None
                    }
                },
                _ => None,
            }
        },
    }
}

/// Parses the whole response body into quote records.
///
/// Succeeds exactly when the body is a well-formed quote array, and
/// then returns its quotes in response order, each field's text kept
/// exactly; otherwise reports the parse failure.
pub fn parse_quotes(s: &[u8]) -> (r: Result<Vec<Quote>, QuoteError>)
    ensures
        match spec_parse_quotes(s@) {
            Some(qs) => r is Ok && quotes_view(r->Ok_0@) == qs,
            None => r == Err::<Vec<Quote>, QuoteError>(QuoteError::Parse),
        },
{
    let j = skip_ws(s, 0);
    if !(j < s.len() && s[j] == 91) {
        return Err(QuoteError::Parse);
    }
    let acc: Vec<Quote> = Vec::new();
    proof {
        assert(quotes_view(acc@) =~= Seq::<QuoteView>::empty());
    }
    match parse_qelems(s, j + 1, true, acc) {
        None => Err(QuoteError::Parse),
        Some((qs, e)) => {
            let k = skip_ws(s, e);
            if k == s.len() {
                Ok(qs)
            } else {
                Err(QuoteError::Parse)
            }
        },
    }
}

} // verus!
