//! Reader for the subset of glTF that the engine embeds: the JSON part is
//! scanned for the `accessors`, `bufferViews` and `meshes` arrays, and index
//! data is read from the binary buffer.
//!
//! The JSON text is handled as bytes; every position below is a byte
//! position in that text.
use vstd::prelude::*;

verus! {

// ---------------------------------------------------------------------------
// Searching in byte strings
// ---------------------------------------------------------------------------

pub open spec fn is_digit(b: u8) -> bool {
    48 <= b && b <= 57
}

/// Whether `needle` occurs in `hay` starting at position `i`.
pub open spec fn matches_at(hay: Seq<u8>, needle: Seq<u8>, i: int) -> bool {
    &&& 0 <= i
    &&& i + needle.len() <= hay.len()
    &&& hay.subrange(i, i + needle.len()) == needle
}

/// The first position at or after `i` where `needle` occurs in `hay`.
pub open spec fn find_from(hay: Seq<u8>, needle: Seq<u8>, i: int) -> Option<int>
    decreases hay.len() - i,
{
    if i < 0 || i + needle.len() > hay.len() {
        None
    } else if matches_at(hay, needle, i) {
        Some(i)
    } else if i >= hay.len() {
        None
    } else {
        find_from(hay, needle, i + 1)
    }
}

/// The first position where `needle` occurs in `hay`.
pub open spec fn find_sub(hay: Seq<u8>, needle: Seq<u8>) -> Option<int> {
    find_from(hay, needle, 0)
}

/// The first position at or after `i` that holds a digit (or the end).
pub open spec fn skip_non_digits(s: Seq<u8>, i: int) -> int
    decreases s.len() - i,
{
    if i < 0 || i >= s.len() {
        s.len() as int
    } else if is_digit(s[i]) {
        i
    } else {
        skip_non_digits(s, i + 1)
    }
}

/// The first position at or after `i` that holds no digit (or the end).
pub open spec fn skip_digits(s: Seq<u8>, i: int) -> int
    decreases s.len() - i,
{
    if i < 0 || i >= s.len() {
        s.len() as int
    } else if !is_digit(s[i]) {
        i
    } else {
        skip_digits(s, i + 1)
    }
}

/// The first run of digits at or after position `i`.
pub open spec fn digit_run(s: Seq<u8>, i: int) -> Seq<u8> {
    let q = skip_non_digits(s, i);
    s.subrange(q, skip_digits(s, q))
}

/// The number that a sequence of decimal digits denotes.
pub open spec fn decimal_value(d: Seq<u8>) -> int
    decreases d.len(),
{
    if d.len() == 0 {
        0
    } else {
        decimal_value(d.drop_last()) * 10 + (d.last() - 48)
    }
}

/// The integer written after `key`: the first run of digits after the first
/// `:` that follows the first occurrence of `key`, if there is such a run
/// and its value fits in a `usize`.
pub open spec fn find_int_spec(s: Seq<u8>, key: Seq<u8>) -> Option<usize> {
    match find_sub(s, key) {
        None => None,
        Some(k) => match find_from(s, seq![58u8], k + key.len()) {
            None => None,
            Some(c) => {
                let d = digit_run(s, c + 1);
                if d.len() == 0 || decimal_value(d) > usize::MAX {
                    None
                } else {
                    Some(decimal_value(d) as usize)
                }
            },
        },
    }
}

proof fn lemma_find_from_step(hay: Seq<u8>, needle: Seq<u8>, i: int)
    requires
        0 <= i,
        i + needle.len() <= hay.len(),
        !matches_at(hay, needle, i),
    ensures
        find_from(hay, needle, i) == find_from(hay, needle, i + 1),
{
    if i >= hay.len() {
        assert(needle.len() == 0);
        assert(hay.subrange(i, i) =~= needle);
    }
}

/// Whether `needle` occurs in `hay` at position `i`.
fn bytes_match_at(hay: &[u8], i: usize, needle: &[u8]) -> (r: bool)
    requires
        i + needle@.len() <= hay@.len(),
    ensures
        r == matches_at(hay@, needle@, i as int),
{
    let hl = hay.len();
    let mut j: usize = 0;
    while j < needle.len()
        invariant
            hl == hay@.len(),
            i + needle@.len() <= hay@.len(),
            j <= needle@.len(),
            forall|k: int| 0 <= k < j ==> hay@[i + k] == needle@[k],
        decreases needle@.len() - j,
    {
        if hay[i + j] != needle[j] {
            assert(hay@.subrange(i as int, i + needle@.len())[j as int] != needle@[j as int]);
            return false;
        }
        j = j + 1;
    }
    assert(hay@.subrange(i as int, i + needle@.len()) =~= needle@);
    true
}

/// The first position at or after `from` where `needle` occurs in `hay`.
fn find_in(hay: &[u8], from: usize, needle: &[u8]) -> (r: Option<usize>)
    ensures
        match r {
            Some(p) => find_from(hay@, needle@, from as int) == Some(p as int),
            None => find_from(hay@, needle@, from as int) is None,
        },
{
    if needle.len() > hay.len() {
        return None;
    }
    let last = hay.len() - needle.len();
    let mut i: usize = from;
    while i <= last
        invariant
            last == hay@.len() - needle@.len(),
            from <= i,
            find_from(hay@, needle@, from as int) == find_from(hay@, needle@, i as int),
        decreases last + 1 - i,
    {
        if bytes_match_at(hay, i, needle) {
            return Some(i);
        }
        proof {
            lemma_find_from_step(hay@, needle@, i as int);
        }
        if i == last {
            proof {
                assert(find_from(hay@, needle@, i + 1) is None);
            }
            return None;
        }
        i = i + 1;
    }
    None
}

proof fn lemma_find_from_result(hay: Seq<u8>, needle: Seq<u8>, i: int)
    ensures
        find_from(hay, needle, i) matches Some(p) ==> i <= p && matches_at(hay, needle, p),
    decreases hay.len() - i,
{
    if !(i < 0 || i + needle.len() > hay.len()) && !matches_at(hay, needle, i) && i < hay.len() {
        lemma_find_from_result(hay, needle, i + 1);
    }
}

proof fn lemma_decimal_value_prefix(d: Seq<u8>, k: int)
    requires
        0 <= k <= d.len(),
        forall|j: int| 0 <= j < d.len() ==> is_digit(#[trigger] d[j]),
    ensures
        decimal_value(d.subrange(0, k)) <= decimal_value(d),
        0 <= decimal_value(d),
    decreases d.len(),
{
    if d.len() > 0 {
        let p = d.drop_last();
        lemma_decimal_value_prefix(p, if k == d.len() { p.len() as int } else { k });
        if k < d.len() {
            assert(d.subrange(0, k) =~= p.subrange(0, k));
        } else {
            assert(d.subrange(0, k) =~= d);
        }
    } else {
        assert(d.subrange(0, k) =~= d);
    }
}

/// Reads the integer written after `key` in `s` (see [`find_int_spec`]).
pub fn find_int(s: &[u8], key: &[u8]) -> (r: Option<usize>)
    ensures
        r == find_int_spec(s@, key@),
{
    let sl = s.len();
    let key_pos = match find_in(s, 0, key) {
        Some(p) => p,
        None => return None,
    };
    proof {
        lemma_find_from_result(s@, key@, 0);
    }
    let colon: [u8; 1] = [':' as u8];
    assert(colon@ == seq![58u8]);
    let colon_pos = match find_in(s, key_pos + key.len(), &colon) {
        Some(p) => p,
        None => return None,
    };
    proof {
        lemma_find_from_result(s@, seq![58u8], key_pos + key@.len());
    }
    // Skip to the first digit.
    let mut q: usize = colon_pos + 1;
    while q < s.len() && !(s[q] >= 48 && s[q] <= 57)
        invariant
            colon_pos + 1 <= q <= s@.len(),
            skip_non_digits(s@, colon_pos + 1) == skip_non_digits(s@, q as int),
        decreases s@.len() - q,
    {
        q = q + 1;
    }
    assert(skip_non_digits(s@, colon_pos + 1) == q);
    // Accumulate the digits.
    let mut value: usize = 0;
    let mut e: usize = q;
    while e < s.len() && s[e] >= 48 && s[e] <= 57
        invariant
            q <= e <= s@.len(),
            skip_non_digits(s@, colon_pos + 1) == q,
            find_sub(s@, key@) == Some(key_pos as int),
            find_from(s@, seq![58u8], key_pos + key@.len()) == Some(colon_pos as int),
            skip_digits(s@, q as int) == skip_digits(s@, e as int),
            forall|j: int| q <= j < e ==> is_digit(#[trigger] s@[j]),
            value == decimal_value(s@.subrange(q as int, e as int)),
        decreases s@.len() - e,
    {
        let digit = (s[e] - 48) as usize;
        assert(s@.subrange(q as int, e + 1).drop_last() =~= s@.subrange(q as int, e as int));
        assert(decimal_value(s@.subrange(q as int, e + 1)) == value * 10 + digit);
        match value.checked_mul(10) {
            Some(m) => match m.checked_add(digit) {
                Some(v) => {
                    value = v;
                },
                None => {
                    proof {
                        lemma_run_exceeds(s@, q as int, e + 1);
                    }
                    return None;
                },
            },
            None => {
                proof {
                    lemma_decimal_value_prefix(s@.subrange(q as int, e as int), 0);
                    lemma_run_exceeds(s@, q as int, e + 1);
                }
                return None;
            },
        }
        e = e + 1;
    }
    assert(skip_digits(s@, q as int) == e);
    if e == q {
        return None;
    }
    Some(value)
}

/// `skip_digits` stops at the first non-digit at or after `i`.
proof fn lemma_skip_digits(s: Seq<u8>, i: int)
    requires
        0 <= i <= s.len(),
    ensures
        i <= skip_digits(s, i) <= s.len(),
        forall|j: int| i <= j < skip_digits(s, i) ==> is_digit(#[trigger] s[j]),
        skip_digits(s, i) < s.len() ==> !is_digit(s[skip_digits(s, i)]),
    decreases s.len() - i,
{
    if i < s.len() && is_digit(s[i]) {
        lemma_skip_digits(s, i + 1);
    }
}

/// Once a prefix of a digit run exceeds `usize::MAX`, so does the run.
proof fn lemma_run_exceeds(s: Seq<u8>, q: int, e: int)
    requires
        0 <= q < e <= s.len(),
        forall|j: int| q <= j < e ==> is_digit(#[trigger] s[j]),
        decimal_value(s.subrange(q, e)) > usize::MAX,
    ensures
        decimal_value(s.subrange(q, skip_digits(s, q))) > usize::MAX,
{
    lemma_skip_digits(s, q);
    let end = skip_digits(s, q);
    if end < e {
        assert(is_digit(s[end]));
    }
    let run = s.subrange(q, end);
    assert(run.subrange(0, e - q) =~= s.subrange(q, e));
    lemma_decimal_value_prefix(run, e - q);
}

// ---------------------------------------------------------------------------
// Scanning the objects of a JSON array
// ---------------------------------------------------------------------------

/// Whether byte `c` continues a UTF-8 character rather than starting one.
pub open spec fn is_continuation(c: u8) -> bool {
    128 <= c < 192
}

/// State of the scan over the text of a JSON array, character by character:
/// bracket depth, the index of the character where the current top-level
/// object started, whether one is open, whether the array has been closed,
/// how many characters have been read, and the `(first, last)` character
/// indices of every top-level object found so far.
pub struct ScanState {
    pub depth: int,
    pub start: int,
    pub in_obj: bool,
    pub done: bool,
    pub chars: int,
    pub spans: Seq<(int, int)>,
}

pub open spec fn scan_init() -> ScanState {
    ScanState { depth: 0, start: 0, in_obj: false, done: false, chars: 0, spans: Seq::empty() }
}

/// One step of the scan on byte `c`. A byte that continues a character
/// changes nothing; any other byte is the next character, numbered by the
/// characters before it: `[` opens the array, `{` and `}` nest, a `}` back
/// at depth one closes a top-level object, and `]` at depth one ends the
/// array.
pub open spec fn scan_step(st: ScanState, c: u8) -> ScanState {
    if st.done || is_continuation(c) {
        st
    } else {
        let i = st.chars;
        let nx = ScanState { chars: st.chars + 1, ..st };
        if c == 91 && st.depth == 0 {
            ScanState { depth: 1, ..nx }
        } else if c == 123 {
            if st.depth == 1 && !st.in_obj {
                ScanState { depth: st.depth + 1, start: i, in_obj: true, ..nx }
            } else {
                ScanState { depth: st.depth + 1, ..nx }
            }
        } else if c == 125 {
            if st.depth - 1 == 1 && st.in_obj {
                ScanState { depth: st.depth - 1, in_obj: false, spans: st.spans.push((st.start, i)), ..nx }
            } else {
                ScanState { depth: st.depth - 1, ..nx }
            }
        } else if c == 93 && st.depth == 1 {
            ScanState { done: true, ..nx }
        } else {
            nx
        }
    }
}

/// The scan state after the bytes at positions `base .. n`.
pub open spec fn scan_upto(s: Seq<u8>, base: int, n: int) -> ScanState
    decreases n - base,
{
    if n <= base {
        scan_init()
    } else {
        scan_step(scan_upto(s, base, n - 1), s[n - 1])
    }
}

/// The byte ranges of the top-level objects of the array that follows the
/// first occurrence of `key`, as `(first, last)` positions. The scan starts
/// at the first `[` after the key and runs to the array's closing `]` (or
/// the end); an object's first and last character indices, counted from
/// that `[`, are taken as byte offsets from it.
pub open spec fn array_spans(json: Seq<u8>, key: Seq<u8>) -> Seq<(int, int)> {
    match find_sub(json, key) {
        None => Seq::empty(),
        Some(k) => match find_from(json, seq![91u8], k) {
            None => Seq::empty(),
            Some(b) => scan_upto(json, b, json.len() as int).spans.map_values(
                |sp: (int, int)| (b + sp.0, b + sp.1),
            ),
        },
    }
}

/// Whether position `p` of `s` lies on a character boundary.
pub open spec fn on_char_boundary(s: Seq<u8>, p: int) -> bool {
    p == s.len() || (0 <= p < s.len() && !is_continuation(s[p]))
}

/// Whether every object range of the array that follows `key` starts and
/// ends on character boundaries, so that it can be cut out as text.
pub open spec fn spans_on_boundaries(json: Seq<u8>, key: Seq<u8>) -> bool {
    forall|k: int|
        0 <= k < array_spans(json, key).len() ==> on_char_boundary(json, (#[trigger] array_spans(json, key)[k]).0)
            && on_char_boundary(json, array_spans(json, key)[k].1 + 1)
}

/// The text of each object of the array that follows `key`.
pub open spec fn array_objects(json: Seq<u8>, key: Seq<u8>) -> Seq<Seq<u8>> {
    array_spans(json, key).map_values(|sp: (int, int)| json.subrange(sp.0, sp.1 + 1))
}

/// Bounds that hold of every scan state.
proof fn lemma_scan_bounds(s: Seq<u8>, base: int, n: int)
    requires
        base <= n,
    ensures
        0 <= scan_upto(s, base, n).chars <= n - base,
        -scan_upto(s, base, n).chars <= scan_upto(s, base, n).depth <= scan_upto(s, base, n).chars,
        scan_upto(s, base, n).in_obj ==> 0 <= scan_upto(s, base, n).start < scan_upto(s, base, n).chars,
        forall|k: int| 0 <= k < scan_upto(s, base, n).spans.len() ==> {
            &&& 0 <= (#[trigger] scan_upto(s, base, n).spans[k]).0
            &&& scan_upto(s, base, n).spans[k].0 <= scan_upto(s, base, n).spans[k].1
            &&& scan_upto(s, base, n).spans[k].1 < scan_upto(s, base, n).chars
        },
    decreases n - base,
{
    if n > base {
        lemma_scan_bounds(s, base, n - 1);
    }
}

/// Once the array is closed, later bytes change nothing.
proof fn lemma_scan_done(s: Seq<u8>, base: int, n: int, m: int)
    requires
        base <= n <= m,
        scan_upto(s, base, n).done,
    ensures
        scan_upto(s, base, m) == scan_upto(s, base, n),
    decreases m - n,
{
    if m > n {
        lemma_scan_done(s, base, n, m - 1);
    }
}

/// The `(first, last)` byte positions of the top-level objects of the
/// array that follows the first occurrence of `key` in `json` (see
/// [`array_spans`]).
pub fn array_object_spans(json: &[u8], key: &[u8]) -> (r: Vec<(usize, usize)>)
    requires
        json@.len() <= isize::MAX,
    ensures
        r@.len() == array_spans(json@, key@).len(),
        forall|k: int|
            0 <= k < r@.len() ==> (#[trigger] r@[k]).0 == array_spans(json@, key@)[k].0 && r@[k].1
                == array_spans(json@, key@)[k].1,
        forall|k: int| 0 <= k < r@.len() ==> (#[trigger] r@[k]).0 <= r@[k].1 && r@[k].1 < json@.len(),
{
    let mut spans: Vec<(usize, usize)> = Vec::new();
    let key_pos = match find_in(json, 0, key) {
        Some(p) => p,
        None => return spans,
    };
    let open: [u8; 1] = ['[' as u8];
    assert(open@ == seq![91u8]);
    let base = match find_in(json, key_pos, &open) {
        Some(p) => p,
        None => return spans,
    };
    proof {
        lemma_find_from_result(json@, seq![91u8], key_pos as int);
    }
    let ghost full = scan_upto(json@, base as int, json@.len() as int);
    let n = json.len();
    let mut depth: isize = 0;
    let mut obj_start: usize = 0;
    let mut in_obj = false;
    let mut chars: usize = 0;
    let mut i: usize = base;
    while i < n
        invariant
            n == json@.len(),
            n <= isize::MAX,
            base <= i <= n,
            full == scan_upto(json@, base as int, n as int),
            array_spans(json@, key@) == full.spans.map_values(
                |sp: (int, int)| (base + sp.0, base + sp.1),
            ),
            ({
                let st = scan_upto(json@, base as int, i as int);
                &&& !st.done
                &&& st.depth == depth
                &&& st.in_obj == in_obj
                &&& st.chars == chars
                &&& in_obj ==> st.start == obj_start
                &&& st.spans.len() == spans@.len()
                &&& forall|k: int|
                    0 <= k < spans@.len() ==> (#[trigger] spans@[k]).0 == base + st.spans[k].0
                        && spans@[k].1 == base + st.spans[k].1
            }),
            forall|k: int| 0 <= k < spans@.len() ==> (#[trigger] spans@[k]).0 <= spans@[k].1 && spans@[k].1 < n,
        decreases n - i,
    {
        proof {
            lemma_scan_bounds(json@, base as int, i as int);
        }
        let c = json[i];
        if c < 128 || c >= 192 {
            if c == '[' as u8 && depth == 0 {
                depth = 1;
            } else if c == '{' as u8 {
                if depth == 1 && !in_obj {
                    obj_start = chars;
                    in_obj = true;
                }
                depth = depth + 1;
            } else if c == '}' as u8 {
                depth = depth - 1;
                if depth == 1 && in_obj {
                    spans.push((base + obj_start, base + chars));
                    in_obj = false;
                }
            } else if c == ']' as u8 && depth == 1 {
                proof {
                    lemma_scan_done(json@, base as int, i + 1, n as int);
                }
                return spans;
            }
            chars = chars + 1;
        }
        i = i + 1;
    }
    spans
}

/// Whether every object of the array that follows `key` starts and ends on
/// a character boundary.
pub fn object_spans_on_boundaries(json: &[u8], key: &[u8]) -> (r: bool)
    requires
        json@.len() <= isize::MAX,
    ensures
        r == spans_on_boundaries(json@, key@),
{
    let spans = array_object_spans(json, key);
    let n = json.len();
    let mut k: usize = 0;
    while k < spans.len()
        invariant
            n == json@.len(),
            k <= spans@.len(),
            spans@.len() == array_spans(json@, key@).len(),
            forall|j: int|
                0 <= j < spans@.len() ==> (#[trigger] spans@[j]).0 == array_spans(json@, key@)[j].0
                    && spans@[j].1 == array_spans(json@, key@)[j].1,
            forall|j: int| 0 <= j < spans@.len() ==> (#[trigger] spans@[j]).0 <= spans@[j].1 && spans@[j].1 < n,
            forall|j: int|
                0 <= j < k ==> on_char_boundary(json@, (#[trigger] array_spans(json@, key@)[j]).0)
                    && on_char_boundary(json@, array_spans(json@, key@)[j].1 + 1),
        decreases spans@.len() - k,
    {
        let (a, b) = spans[k];
        let first = json[a];
        if 128 <= first && first < 192 {
            return false;
        }
        if b + 1 < n {
            let after = json[b + 1];
            if 128 <= after && after < 192 {
                return false;
            }
        }
        k = k + 1;
    }
    true
}

// ---------------------------------------------------------------------------
// Keys
// ---------------------------------------------------------------------------

/// The bytes of `"accessors"`.
pub open spec fn key_accessors() -> Seq<u8> {
    seq!['"' as u8, 'a' as u8, 'c' as u8, 'c' as u8, 'e' as u8, 's' as u8, 's' as u8, 'o' as u8, 'r' as u8, 's' as u8, '"' as u8]
}

/// The bytes of `"bufferViews"`.
pub open spec fn key_buffer_views() -> Seq<u8> {
    seq!['"' as u8, 'b' as u8, 'u' as u8, 'f' as u8, 'f' as u8, 'e' as u8, 'r' as u8, 'V' as u8, 'i' as u8, 'e' as u8, 'w' as u8, 's' as u8, '"' as u8]
}

/// The bytes of `"meshes"`.
pub open spec fn key_meshes() -> Seq<u8> {
    seq!['"' as u8, 'm' as u8, 'e' as u8, 's' as u8, 'h' as u8, 'e' as u8, 's' as u8, '"' as u8]
}

/// The bytes of `bufferView`.
pub open spec fn key_buffer_view() -> Seq<u8> {
    seq!['b' as u8, 'u' as u8, 'f' as u8, 'f' as u8, 'e' as u8, 'r' as u8, 'V' as u8, 'i' as u8, 'e' as u8, 'w' as u8]
}

/// The bytes of `byteOffset`.
pub open spec fn key_byte_offset() -> Seq<u8> {
    seq!['b' as u8, 'y' as u8, 't' as u8, 'e' as u8, 'O' as u8, 'f' as u8, 'f' as u8, 's' as u8, 'e' as u8, 't' as u8]
}

/// The bytes of `count`.
pub open spec fn key_count() -> Seq<u8> {
    seq!['c' as u8, 'o' as u8, 'u' as u8, 'n' as u8, 't' as u8]
}

/// The bytes of `componentType`.
pub open spec fn key_component_type() -> Seq<u8> {
    seq!['c' as u8, 'o' as u8, 'm' as u8, 'p' as u8, 'o' as u8, 'n' as u8, 'e' as u8, 'n' as u8, 't' as u8, 'T' as u8, 'y' as u8, 'p' as u8, 'e' as u8]
}

/// The bytes of `byteLength`.
pub open spec fn key_byte_length() -> Seq<u8> {
    seq!['b' as u8, 'y' as u8, 't' as u8, 'e' as u8, 'L' as u8, 'e' as u8, 'n' as u8, 'g' as u8, 't' as u8, 'h' as u8]
}

/// The bytes of `byteStride`.
pub open spec fn key_byte_stride() -> Seq<u8> {
    seq!['b' as u8, 'y' as u8, 't' as u8, 'e' as u8, 'S' as u8, 't' as u8, 'r' as u8, 'i' as u8, 'd' as u8, 'e' as u8]
}

/// The bytes of `"POSITION"`.
pub open spec fn key_position() -> Seq<u8> {
    seq!['"' as u8, 'P' as u8, 'O' as u8, 'S' as u8, 'I' as u8, 'T' as u8, 'I' as u8, 'O' as u8, 'N' as u8, '"' as u8]
}

/// The bytes of `"NORMAL"`.
pub open spec fn key_normal() -> Seq<u8> {
    seq!['"' as u8, 'N' as u8, 'O' as u8, 'R' as u8, 'M' as u8, 'A' as u8, 'L' as u8, '"' as u8]
}

/// The bytes of `"TEXCOORD_0"`.
pub open spec fn key_texcoord() -> Seq<u8> {
    seq!['"' as u8, 'T' as u8, 'E' as u8, 'X' as u8, 'C' as u8, 'O' as u8, 'O' as u8, 'R' as u8, 'D' as u8, '_' as u8, '0' as u8, '"' as u8]
}

/// The bytes of `"indices"`.
pub open spec fn key_indices() -> Seq<u8> {
    seq!['"' as u8, 'i' as u8, 'n' as u8, 'd' as u8, 'i' as u8, 'c' as u8, 'e' as u8, 's' as u8, '"' as u8]
}

// ---------------------------------------------------------------------------
// glTF records
// ---------------------------------------------------------------------------

/// Where a run of elements lies in a buffer view and how its components are
/// stored (5126 = f32, 5125 = u32, 5123 = u16).
#[derive(Clone, Copy, Debug, PartialEq, Eq, Structural)]
pub struct Accessor {
    pub buffer_view: usize,
    pub byte_offset: usize,
    pub count: usize,
    pub component_type: u32,
}

/// A slice of the binary buffer.
#[derive(Clone, Copy, Debug, PartialEq, Eq, Structural)]
pub struct BufferView {
    pub byte_offset: usize,
    pub byte_length: usize,
    pub byte_stride: usize,
}

/// The accessors of one mesh primitive.
#[derive(Clone, Copy, Debug, PartialEq, Eq, Structural)]
pub struct MeshPrimitive {
    pub position_accessor: usize,
    pub normal_accessor: usize,
    pub uv_accessor: usize,
    pub index_accessor: usize,
}

/// The parts of a glTF document that the mesh loader uses.
pub struct GltfData {
    pub accessors: Vec<Accessor>,
    pub buffer_views: Vec<BufferView>,
    pub meshes: Vec<MeshPrimitive>,
    pub mesh_indices: Vec<usize>,
}

pub open spec fn or_default(o: Option<usize>, d: usize) -> usize {
    match o {
        Some(v) => v,
        None => d,
    }
}

/// The accessor an object's text describes; a missing field reads as 0,
/// a missing component type as 5126, and the component type keeps the low
/// 32 bits of the number written.
pub open spec fn accessor_of(obj: Seq<u8>) -> Accessor {
    Accessor {
        buffer_view: or_default(find_int_spec(obj, key_buffer_view()), 0),
        byte_offset: or_default(find_int_spec(obj, key_byte_offset()), 0),
        count: or_default(find_int_spec(obj, key_count()), 0),
        component_type: or_default(find_int_spec(obj, key_component_type()), 5126) as u32,
    }
}

/// The buffer view an object's text describes; missing fields read as 0.
pub open spec fn buffer_view_of(obj: Seq<u8>) -> BufferView {
    BufferView {
        byte_offset: or_default(find_int_spec(obj, key_byte_offset()), 0),
        byte_length: or_default(find_int_spec(obj, key_byte_length()), 0),
        byte_stride: or_default(find_int_spec(obj, key_byte_stride()), 0),
    }
}

/// The primitive a mesh object's text describes, when all four of its
/// attribute indices are present.
pub open spec fn primitive_of(obj: Seq<u8>) -> Option<MeshPrimitive> {
    match (
        find_int_spec(obj, key_position()),
        find_int_spec(obj, key_normal()),
        find_int_spec(obj, key_texcoord()),
        find_int_spec(obj, key_indices()),
    ) {
        (Some(p), Some(n), Some(u), Some(i)) => Some(
            MeshPrimitive { position_accessor: p, normal_accessor: n, uv_accessor: u, index_accessor: i },
        ),
        _ => None,
    }
}

/// The primitives of the mesh objects that have all four attributes, in order.
pub open spec fn primitives_of(objs: Seq<Seq<u8>>) -> Seq<MeshPrimitive>
    decreases objs.len(),
{
    if objs.len() == 0 {
        Seq::empty()
    } else {
        let rest = primitives_of(objs.drop_last());
        match primitive_of(objs.last()) {
            Some(p) => rest.push(p),
            None => rest,
        }
    }
}

/// Reads one accessor object.
pub fn parse_accessor_obj(obj: &[u8]) -> (r: Accessor)
    ensures
        r == accessor_of(obj@),
{
    let k1: [u8; 10] = ['b' as u8, 'u' as u8, 'f' as u8, 'f' as u8, 'e' as u8, 'r' as u8, 'V' as u8, 'i' as u8, 'e' as u8, 'w' as u8];
    let k2: [u8; 10] = ['b' as u8, 'y' as u8, 't' as u8, 'e' as u8, 'O' as u8, 'f' as u8, 'f' as u8, 's' as u8, 'e' as u8, 't' as u8];
    let k3: [u8; 5] = ['c' as u8, 'o' as u8, 'u' as u8, 'n' as u8, 't' as u8];
    let k4: [u8; 13] = ['c' as u8, 'o' as u8, 'm' as u8, 'p' as u8, 'o' as u8, 'n' as u8, 'e' as u8, 'n' as u8, 't' as u8, 'T' as u8, 'y' as u8, 'p' as u8, 'e' as u8];
    assert(k1@ == key_buffer_view() && k2@ == key_byte_offset() && k3@ == key_count()
        && k4@ == key_component_type());
    Accessor {
        buffer_view: find_int(obj, &k1).unwrap_or(0),
        byte_offset: find_int(obj, &k2).unwrap_or(0),
        count: find_int(obj, &k3).unwrap_or(0),
        component_type: find_int(obj, &k4).unwrap_or(5126) as u32,
    }
}

/// Reads one buffer view object.
pub fn parse_buffer_view_obj(obj: &[u8]) -> (r: BufferView)
    ensures
        r == buffer_view_of(obj@),
{
    let k1: [u8; 10] = ['b' as u8, 'y' as u8, 't' as u8, 'e' as u8, 'O' as u8, 'f' as u8, 'f' as u8, 's' as u8, 'e' as u8, 't' as u8];
    let k2: [u8; 10] = ['b' as u8, 'y' as u8, 't' as u8, 'e' as u8, 'L' as u8, 'e' as u8, 'n' as u8, 'g' as u8, 't' as u8, 'h' as u8];
    let k3: [u8; 10] = ['b' as u8, 'y' as u8, 't' as u8, 'e' as u8, 'S' as u8, 't' as u8, 'r' as u8, 'i' as u8, 'd' as u8, 'e' as u8];
    assert(k1@ == key_byte_offset() && k2@ == key_byte_length() && k3@ == key_byte_stride());
    BufferView {
        byte_offset: find_int(obj, &k1).unwrap_or(0),
        byte_length: find_int(obj, &k2).unwrap_or(0),
        byte_stride: find_int(obj, &k3).unwrap_or(0),
    }
}

/// Reads the attribute indices of a mesh object; `None` when one of
/// `POSITION`, `NORMAL`, `TEXCOORD_0` or `indices` is missing.
pub fn parse_primitive(mesh_obj: &[u8]) -> (r: Option<MeshPrimitive>)
    ensures
        r == primitive_of(mesh_obj@),
{
    let k1: [u8; 10] = ['"' as u8, 'P' as u8, 'O' as u8, 'S' as u8, 'I' as u8, 'T' as u8, 'I' as u8, 'O' as u8, 'N' as u8, '"' as u8];
    let k2: [u8; 8] = ['"' as u8, 'N' as u8, 'O' as u8, 'R' as u8, 'M' as u8, 'A' as u8, 'L' as u8, '"' as u8];
    let k3: [u8; 12] = ['"' as u8, 'T' as u8, 'E' as u8, 'X' as u8, 'C' as u8, 'O' as u8, 'O' as u8, 'R' as u8, 'D' as u8, '_' as u8, '0' as u8, '"' as u8];
    let k4: [u8; 9] = ['"' as u8, 'i' as u8, 'n' as u8, 'd' as u8, 'i' as u8, 'c' as u8, 'e' as u8, 's' as u8, '"' as u8];
    assert(k1@ == key_position() && k2@ == key_normal() && k3@ == key_texcoord()
        && k4@ == key_indices());
    let position = match find_int(mesh_obj, &k1) {
        Some(v) => v,
        None => return None,
    };
    let normal = match find_int(mesh_obj, &k2) {
        Some(v) => v,
        None => return None,
    };
    let uv = match find_int(mesh_obj, &k3) {
        Some(v) => v,
        None => return None,
    };
    let indices = match find_int(mesh_obj, &k4) {
        Some(v) => v,
        None => return None,
    };
    Some(
        MeshPrimitive {
            position_accessor: position,
            normal_accessor: normal,
            uv_accessor: uv,
            index_accessor: indices,
        },
    )
}

/// Reads every object of the `"accessors"` array. Each object must start
/// and end on a character boundary, as text slices must.
pub fn parse_accessors(json: &[u8]) -> (r: Vec<Accessor>)
    requires
        json@.len() <= isize::MAX,
        spans_on_boundaries(json@, key_accessors()),
    ensures
        r@ == array_objects(json@, key_accessors()).map_values(|o: Seq<u8>| accessor_of(o)),
{
    let key: [u8; 11] = ['"' as u8, 'a' as u8, 'c' as u8, 'c' as u8, 'e' as u8, 's' as u8, 's' as u8, 'o' as u8, 'r' as u8, 's' as u8, '"' as u8];
        assert(key@ == key_accessors());
    let spans = array_object_spans(json, &key);
    let mut out: Vec<Accessor> = Vec::new();
    let mut k: usize = 0;
    while k < spans.len()
        invariant
            json@.len() <= isize::MAX,
            k <= spans@.len(),
            spans@.len() == array_spans(json@, key_accessors()).len(),
            forall|j: int|
                0 <= j < spans@.len() ==> (#[trigger] spans@[j]).0 == array_spans(json@, key_accessors())[j].0
                    && spans@[j].1 == array_spans(json@, key_accessors())[j].1,
            forall|j: int| 0 <= j < spans@.len() ==> (#[trigger] spans@[j]).0 <= spans@[j].1 && spans@[j].1 < json@.len(),
            out@ =~= array_objects(json@, key_accessors()).map_values(|o: Seq<u8>| accessor_of(o)).subrange(0, k as int),
        decreases spans@.len() - k,
    {
        let (a, b) = spans[k];
        let obj = &json[a..b + 1];
        out.push(parse_accessor_obj(obj));
        k = k + 1;
    }
    out
}

/// Reads every object of the `"bufferViews"` array. Each object must start
/// and end on a character boundary, as text slices must.
pub fn parse_buffer_views(json: &[u8]) -> (r: Vec<BufferView>)
    requires
        json@.len() <= isize::MAX,
        spans_on_boundaries(json@, key_buffer_views()),
    ensures
        r@ == array_objects(json@, key_buffer_views()).map_values(|o: Seq<u8>| buffer_view_of(o)),
{
    let key: [u8; 13] = ['"' as u8, 'b' as u8, 'u' as u8, 'f' as u8, 'f' as u8, 'e' as u8, 'r' as u8, 'V' as u8, 'i' as u8, 'e' as u8, 'w' as u8, 's' as u8, '"' as u8];
        assert(key@ == key_buffer_views());
    let spans = array_object_spans(json, &key);
    let mut out: Vec<BufferView> = Vec::new();
    let mut k: usize = 0;
    while k < spans.len()
        invariant
            json@.len() <= isize::MAX,
            k <= spans@.len(),
            spans@.len() == array_spans(json@, key_buffer_views()).len(),
            forall|j: int|
                0 <= j < spans@.len() ==> (#[trigger] spans@[j]).0 == array_spans(json@, key_buffer_views())[j].0
                    && spans@[j].1 == array_spans(json@, key_buffer_views())[j].1,
            forall|j: int| 0 <= j < spans@.len() ==> (#[trigger] spans@[j]).0 <= spans@[j].1 && spans@[j].1 < json@.len(),
            out@ =~= array_objects(json@, key_buffer_views()).map_values(|o: Seq<u8>| buffer_view_of(o)).subrange(0, k as int),
        decreases spans@.len() - k,
    {
        let (a, b) = spans[k];
        let obj = &json[a..b + 1];
        out.push(parse_buffer_view_obj(obj));
        k = k + 1;
    }
    out
}

/// Reads the primitives of the `"meshes"` array, skipping mesh objects that
/// lack one of the four attributes; the second vector numbers the kept
/// primitives `0, 1, 2, ...`.
pub fn parse_meshes(json: &[u8]) -> (r: (Vec<MeshPrimitive>, Vec<usize>))
    requires
        json@.len() <= isize::MAX,
        spans_on_boundaries(json@, key_meshes()),
    ensures
        r.0@ == primitives_of(array_objects(json@, key_meshes())),
        r.1@ == Seq::new(r.0@.len(), |i: int| i as usize),
{
    let key: [u8; 8] = ['"' as u8, 'm' as u8, 'e' as u8, 's' as u8, 'h' as u8, 'e' as u8, 's' as u8, '"' as u8];
        assert(key@ == key_meshes());
    let spans = array_object_spans(json, &key);
    let ghost objs = array_objects(json@, key_meshes());
    let mut meshes: Vec<MeshPrimitive> = Vec::new();
    let mut indices: Vec<usize> = Vec::new();
    let mut k: usize = 0;
    while k < spans.len()
        invariant
            json@.len() <= isize::MAX,
            k <= spans@.len(),
            objs == array_objects(json@, key_meshes()),
            spans@.len() == array_spans(json@, key_meshes()).len(),
            forall|j: int|
                0 <= j < spans@.len() ==> (#[trigger] spans@[j]).0 == array_spans(json@, key_meshes())[j].0
                    && spans@[j].1 == array_spans(json@, key_meshes())[j].1,
            forall|j: int| 0 <= j < spans@.len() ==> (#[trigger] spans@[j]).0 <= spans@[j].1 && spans@[j].1 < json@.len(),
            meshes@ == primitives_of(objs.subrange(0, k as int)),
            indices@ =~= Seq::new(meshes@.len(), |i: int| i as usize),
        decreases spans@.len() - k,
    {
        let (a, b) = spans[k];
        let obj = &json[a..b + 1];
        assert(objs.subrange(0, k + 1).drop_last() =~= objs.subrange(0, k as int));
        assert(obj@ == objs[k as int]);
        match parse_primitive(obj) {
            Some(prim) => {
                indices.push(meshes.len());
                meshes.push(prim);
            },
            None => {},
        }
        k = k + 1;
    }
    assert(objs.subrange(0, spans@.len() as int) =~= objs);
    (meshes, indices)
}

/// Reads the accessors, buffer views and mesh primitives of a glTF JSON text.
pub fn parse_gltf_json(json: &[u8]) -> (r: GltfData)
    requires
        json@.len() <= isize::MAX,
        spans_on_boundaries(json@, key_accessors()),
        spans_on_boundaries(json@, key_buffer_views()),
        spans_on_boundaries(json@, key_meshes()),
    ensures
        r.accessors@ == array_objects(json@, key_accessors()).map_values(|o: Seq<u8>| accessor_of(o)),
        r.buffer_views@ == array_objects(json@, key_buffer_views()).map_values(
            |o: Seq<u8>| buffer_view_of(o),
        ),
        r.meshes@ == primitives_of(array_objects(json@, key_meshes())),
        r.mesh_indices@ == Seq::new(r.meshes@.len(), |i: int| i as usize),
{
    let accessors = parse_accessors(json);
    let buffer_views = parse_buffer_views(json);
    let (meshes, mesh_indices) = parse_meshes(json);
    GltfData { accessors, buffer_views, meshes, mesh_indices }
}

// ---------------------------------------------------------------------------
// Binary buffer
// ---------------------------------------------------------------------------

/// The little-endian `u16` stored at `offset`.
pub open spec fn le_u16(data: Seq<u8>, offset: int) -> int {
    data[offset] + 256 * data[offset + 1]
}

/// The little-endian `u32` stored at `offset`.
pub open spec fn le_u32(data: Seq<u8>, offset: int) -> int {
    data[offset] + 256 * data[offset + 1] + 65536 * data[offset + 2] + 16777216 * data[offset + 3]
}

/// Reads a little-endian `u16` at `offset`.
pub fn read_u16(data: &[u8], offset: usize) -> (r: u16)
    requires
        offset + 2 <= data@.len(),
    ensures
        r == le_u16(data@, offset as int),
{
    data[offset] as u16 + (data[offset + 1] as u16) * 256
}

/// Reads a little-endian `u32` at `offset`.
pub fn read_u32(data: &[u8], offset: usize) -> (r: u32)
    requires
        offset + 4 <= data@.len(),
    ensures
        r == le_u32(data@, offset as int),
{
    data[offset] as u32 + (data[offset + 1] as u32) * 256 + (data[offset + 2] as u32) * 65536 + (
    data[offset + 3] as u32) * 16777216
}

/// Bytes per index: 4 for component type 5125 (u32), otherwise 2 (u16).
pub open spec fn index_width(accessor: Accessor) -> int {
    if accessor.component_type == 5125 {
        4
    } else {
        2
    }
}

/// Where the accessor's data starts in the binary buffer.
pub open spec fn accessor_base(accessor: Accessor, views: Seq<BufferView>) -> int {
    views[accessor.buffer_view as int].byte_offset + accessor.byte_offset
}

/// The `i`-th index an accessor describes.
pub open spec fn index_at(bin: Seq<u8>, accessor: Accessor, views: Seq<BufferView>, i: int) -> int {
    let offset = accessor_base(accessor, views) + i * index_width(accessor);
    if index_width(accessor) == 4 {
        le_u32(bin, offset)
    } else {
        le_u16(bin, offset)
    }
}

/// Reads the `count` indices an accessor describes, as `u32` or `u16`
/// values according to its component type.
pub fn read_indices(bin: &[u8], accessor: &Accessor, views: &[BufferView]) -> (r: Vec<u32>)
    requires
        accessor.buffer_view < views@.len(),
        accessor_base(*accessor, views@) <= usize::MAX,
        accessor.count > 0 ==> accessor_base(*accessor, views@) + accessor.count * index_width(
            *accessor,
        ) <= bin@.len(),
    ensures
        r@.len() == accessor.count,
        forall|i: int| 0 <= i < accessor.count ==> r@[i] == index_at(bin@, *accessor, views@, i),
{
    let view = &views[accessor.buffer_view];
    let base_offset = view.byte_offset + accessor.byte_offset;
    let mut result: Vec<u32> = Vec::with_capacity(accessor.count);
    let bytes_per_index: usize = if accessor.component_type == 5125 {
        4
    } else {
        2
    };
    let bl = bin.len();
    let mut i: usize = 0;
    while i < accessor.count
        invariant
            bl == bin@.len(),
            i <= accessor.count,
            base_offset == accessor_base(*accessor, views@),
            bytes_per_index == index_width(*accessor),
            accessor.count > 0 ==> base_offset + accessor.count * bytes_per_index <= bin@.len(),
            result@.len() == i,
            forall|j: int| 0 <= j < i ==> result@[j] == index_at(bin@, *accessor, views@, j),
        decreases accessor.count - i,
    {
        proof {
            assert(i * bytes_per_index + bytes_per_index <= accessor.count * bytes_per_index) by (nonlinear_arith)
                requires i < accessor.count, bytes_per_index >= 0;
        }
        let offset = base_offset + i * bytes_per_index;
        let idx = if bytes_per_index == 4 {
            read_u32(bin, offset)
        } else {
            read_u16(bin, offset) as u32
        };
        result.push(idx);
        i = i + 1;
    }
    result
}

/// Appends `indices` to `all`, each cut to 16 bits and shifted by `offset`,
/// so that they refer to vertices appended after `offset` earlier ones.
pub fn append_indices(all: &mut Vec<u16>, indices: &[u32], offset: u16)
    requires
        forall|i: int| 0 <= i < indices@.len() ==> (#[trigger] indices@[i]) % 65536 + offset <= u16::MAX,
    ensures
        final(all)@.len() == old(all)@.len() + indices@.len(),
        final(all)@.subrange(0, old(all)@.len() as int) == old(all)@,
        forall|i: int|
            0 <= i < indices@.len() ==> final(all)@[old(all)@.len() + i] == (#[trigger] indices@[i])
                % 65536 + offset,
{
    let mut i: usize = 0;
    while i < indices.len()
        invariant
            i <= indices@.len(),
            forall|i: int| 0 <= i < indices@.len() ==> (#[trigger] indices@[i]) % 65536 + offset <= u16::MAX,
            all@.len() == old(all)@.len() + i,
            all@.subrange(0, old(all)@.len() as int) == old(all)@,
            forall|j: int|
                0 <= j < i ==> all@[old(all)@.len() + j] == (#[trigger] indices@[j]) % 65536 + offset,
        decreases indices@.len() - i,
    {
        let low = (indices[i] % 65536) as u16;
        all.push(low + offset);
        proof {
            assert(all@.subrange(0, old(all)@.len() as int) =~= old(all)@);
        }
        i = i + 1;
    }
}

/// The vertex offset of primitive `k` when primitives are laid one after
/// another: the sum of the earlier primitives' vertex counts, each cut to
/// 16 bits.
pub open spec fn vertex_offset(parts: Seq<(Vec<u32>, usize)>, k: int) -> int
    decreases k,
{
    if k <= 0 {
        0
    } else {
        vertex_offset(parts, k - 1) + parts[k - 1].1 % 65536
    }
}

/// `indices`, each cut to 16 bits and shifted by `offset`.
pub open spec fn shifted_indices(indices: Seq<u32>, offset: int) -> Seq<u16> {
    indices.map_values(|i: u32| (i % 65536 + offset) as u16)
}

/// The index lists of the first `n` primitives, shifted by their vertex
/// offsets and joined.
pub open spec fn joined_indices(parts: Seq<(Vec<u32>, usize)>, n: int) -> Seq<u16>
    decreases n,
{
    if n <= 0 {
        Seq::empty()
    } else {
        joined_indices(parts, n - 1) + shifted_indices(parts[n - 1].0@, vertex_offset(parts, n - 1))
    }
}

/// Joins the index lists of several primitives, given with their vertex
/// counts, into one list over the concatenated vertices: the indices of
/// each primitive are shifted by the number of vertices before it. Every
/// running offset and every shifted index must fit in 16 bits.
pub fn join_primitive_indices(parts: &[(Vec<u32>, usize)]) -> (r: Vec<u16>)
    requires
        forall|k: int| 0 <= k < parts@.len() ==> #[trigger] vertex_offset(parts@, k + 1) <= u16::MAX,
        forall|k: int, i: int|
            0 <= k < parts@.len() && 0 <= i < parts@[k].0@.len() ==> (#[trigger] parts@[k].0@[i]) % 65536
                + vertex_offset(parts@, k) <= u16::MAX,
    ensures
        r@ == joined_indices(parts@, parts@.len() as int),
{
    let mut all: Vec<u16> = Vec::new();
    let mut offset: u16 = 0;
    let mut k: usize = 0;
    while k < parts.len()
        invariant
            k <= parts@.len(),
            offset == vertex_offset(parts@, k as int),
            all@ == joined_indices(parts@, k as int),
            forall|k: int| 0 <= k < parts@.len() ==> #[trigger] vertex_offset(parts@, k + 1) <= u16::MAX,
            forall|k: int, i: int|
                0 <= k < parts@.len() && 0 <= i < parts@[k].0@.len() ==> (#[trigger] parts@[k].0@[i])
                    % 65536 + vertex_offset(parts@, k) <= u16::MAX,
        decreases parts@.len() - k,
    {
        let ghost before = all@;
        let indices: &Vec<u32> = &parts[k].0;
        proof {
            assert forall|i: int| 0 <= i < indices@.len() implies (#[trigger] indices@[i]) % 65536 + offset
                <= u16::MAX by {
                assert(parts@[k as int].0@[i] == indices@[i]);
            }
        }
        append_indices(&mut all, indices.as_slice(), offset);
        proof {
            let sh = shifted_indices(indices@, offset as int);
            assert(all@ =~= before + sh) by {
                assert forall|j: int| 0 <= j < all@.len() implies all@[j] == (before + sh)[j] by {
                    if j < before.len() {
                        assert(all@.subrange(0, before.len() as int)[j] == before[j]);
                    } else {
                        assert(all@[before.len() + (j - before.len())] == indices@[j - before.len()] % 65536 + offset);
                    }
                }
            }
            assert(vertex_offset(parts@, k + 1) <= u16::MAX);
        }
        let count: usize = parts[k].1;
        offset = offset + (count % 65536) as u16;
        k = k + 1;
    }
    all
}

/// Whether the `k`-th listed primitive of `g` can be read: it names a mesh
/// of `g`, its four accessors exist, and its index data lies inside `bin`.
pub open spec fn primitive_readable(g: &GltfData, bin: Seq<u8>, k: int) -> bool {
    let mi = g.mesh_indices@[k];
    &&& mi < g.meshes@.len()
    &&& g.meshes@[mi as int].position_accessor < g.accessors@.len()
    &&& g.meshes@[mi as int].normal_accessor < g.accessors@.len()
    &&& g.meshes@[mi as int].uv_accessor < g.accessors@.len()
    &&& g.meshes@[mi as int].index_accessor < g.accessors@.len()
    &&& {
        let acc = g.accessors@[g.meshes@[mi as int].index_accessor as int];
        &&& acc.buffer_view < g.buffer_views@.len()
        &&& accessor_base(acc, g.buffer_views@) <= usize::MAX
        &&& acc.count > 0 ==> accessor_base(acc, g.buffer_views@) + acc.count * index_width(acc)
            <= bin.len()
    }
}

/// The primitive that the `k`-th entry of `g.mesh_indices` names.
pub open spec fn listed_primitive(g: &GltfData, k: int) -> MeshPrimitive {
    g.meshes@[g.mesh_indices@[k] as int]
}

/// For each primitive that `g.mesh_indices` lists, in order, its indices as
/// read from `bin` and its vertex count (the count of its position
/// accessor): what [`join_primitive_indices`] takes.
pub fn primitive_index_parts(g: &GltfData, bin: &[u8]) -> (r: Vec<(Vec<u32>, usize)>)
    requires
        forall|k: int| 0 <= k < g.mesh_indices@.len() ==> #[trigger] primitive_readable(g, bin@, k),
    ensures
        r@.len() == g.mesh_indices@.len(),
        forall|k: int|
            0 <= k < r@.len() ==> {
                let acc = g.accessors@[listed_primitive(g, k).index_accessor as int];
                &&& (#[trigger] r@[k]).1 == g.accessors@[listed_primitive(g, k).position_accessor as int].count
                &&& r@[k].0@.len() == acc.count
                &&& forall|i: int|
                    0 <= i < acc.count ==> r@[k].0@[i] == index_at(bin@, acc, g.buffer_views@, i)
            },
{
    let mut parts: Vec<(Vec<u32>, usize)> = Vec::new();
    let mut k: usize = 0;
    while k < g.mesh_indices.len()
        invariant
            k <= g.mesh_indices@.len(),
            forall|k: int| 0 <= k < g.mesh_indices@.len() ==> #[trigger] primitive_readable(g, bin@, k),
            parts@.len() == k,
            forall|j: int|
                0 <= j < k ==> {
                    let acc = g.accessors@[listed_primitive(g, j).index_accessor as int];
                    &&& (#[trigger] parts@[j]).1 == g.accessors@[listed_primitive(g, j).position_accessor as int].count
                    &&& parts@[j].0@.len() == acc.count
                    &&& forall|i: int|
                        0 <= i < acc.count ==> parts@[j].0@[i] == index_at(bin@, acc, g.buffer_views@, i)
                },
        decreases g.mesh_indices@.len() - k,
    {
        proof {
            assert(primitive_readable(g, bin@, k as int));
        }
        let mesh = &g.meshes[g.mesh_indices[k]];
        let count = g.accessors[mesh.position_accessor].count;
        let indices = read_indices(bin, &g.accessors[mesh.index_accessor], g.buffer_views.as_slice());
        parts.push((indices, count));
        k = k + 1;
    }
    parts
}

/// A mesh object gives a primitive only when all four of `POSITION`,
/// `NORMAL`, `TEXCOORD_0` and `indices` carry a number, and then each
/// accessor of the primitive is the number written for its own attribute;
/// an object missing any of them is skipped by the mesh list, which keeps
/// the others in order.
pub proof fn law_primitive_needs_all_attributes(obj: Seq<u8>, objs: Seq<Seq<u8>>)
    ensures
        primitive_of(obj) is Some <==> (find_int_spec(obj, key_position()) is Some && find_int_spec(
            obj,
            key_normal(),
        ) is Some && find_int_spec(obj, key_texcoord()) is Some && find_int_spec(obj, key_indices()) is Some),
        primitive_of(obj) matches Some(p) ==> {
            &&& find_int_spec(obj, key_position()) == Some(p.position_accessor)
            &&& find_int_spec(obj, key_normal()) == Some(p.normal_accessor)
            &&& find_int_spec(obj, key_texcoord()) == Some(p.uv_accessor)
            &&& find_int_spec(obj, key_indices()) == Some(p.index_accessor)
        },
        find_int_spec(obj, key_texcoord()) is None ==> primitives_of(objs.push(obj)) == primitives_of(objs),
        primitive_of(obj) matches Some(p) ==> primitives_of(objs.push(obj)) == primitives_of(objs).push(p),
{
    assert(objs.push(obj).drop_last() =~= objs);
}

/// Index data is little-endian: the low byte comes first, a `u16` is below
/// 65536, and a `u32` is its low `u16` plus 65536 times the `u16` after it.
pub proof fn law_little_endian(data: Seq<u8>, offset: int)
    requires
        0 <= offset,
        offset + 4 <= data.len(),
    ensures
        0 <= le_u16(data, offset) < 65536,
        le_u16(data, offset) % 256 == data[offset] as int,
        le_u32(data, offset) == le_u16(data, offset) + 65536 * le_u16(data, offset + 2),
{
    assert(le_u16(data, offset) % 256 == data[offset] as int) by {
        vstd::arithmetic::div_mod::lemma_mod_multiples_vanish(data[offset + 1] as int, data[offset] as int, 256);
        vstd::arithmetic::div_mod::lemma_small_mod(data[offset] as nat, 256);
    }
}

} // verus!
