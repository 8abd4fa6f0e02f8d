//! Byte-string helpers with their specifications: decimal rendering,
//! appending, and the comparisons that the rest of the library uses.

use vstd::prelude::*;

verus! {

/// The ASCII decimal rendering of `n`, most significant digit first.
pub open spec fn decimal(n: nat) -> Seq<u8>
    decreases n,
{
    if n < 10 {
        seq![(n + 48) as u8]
    } else {
        decimal(n / 10).push(((n % 10) + 48) as u8)
    }
}

/// Appends the decimal rendering of `n` to `out`.
pub fn push_decimal(out: &mut Vec<u8>, n: usize)
    ensures
        final(out)@ == old(out)@ + decimal(n as nat),
    decreases n,
{
    if n >= 10 {
        push_decimal(out, n / 10);
    }
    let digit: u8 = (n % 10) as u8;
    out.push(digit + 48);
    assert(out@ =~= old(out)@ + decimal(n as nat));
}

/// Appends every byte of `s` to `out`.
pub fn push_bytes(out: &mut Vec<u8>, s: &[u8])
    ensures
        final(out)@ == old(out)@ + s@,
{
    let mut i: usize = 0;
    while i < s.len()
        invariant
            i <= s@.len(),
            out@ == old(out)@ + s@.subrange(0, i as int),
        decreases s@.len() - i,
    {
        out.push(s[i]);
        i = i + 1;
        assert(s@.subrange(0, i as int) =~= s@.subrange(0, i - 1).push(s@[i - 1]));
    }
    assert(s@.subrange(0, s@.len() as int) =~= s@);
}

/// Whether `i` is a character boundary of the UTF-8 text `s`: the start, the
/// end, or a position whose byte is not a continuation byte.
pub open spec fn char_boundary(s: Seq<u8>, i: int) -> bool {
    i == 0 || i == s.len() || (0 < i < s.len() && !(0x80 <= s[i] && s[i] < 0xC0))
}

/// Whether `i` is a character boundary of `s` (see [`char_boundary`]).
pub fn is_char_boundary(s: &[u8], i: usize) -> (r: bool)
    ensures
        r == char_boundary(s@, i as int),
{
    if i == 0 || i == s.len() {
        true
    } else if i > s.len() {
        false
    } else {
        !(0x80 <= s[i] && s[i] < 0xC0)
    }
}

/// A copy of `v`.
pub fn copy_bytes(v: &Vec<u8>) -> (r: Vec<u8>)
    ensures
        r@ == v@,
{
    let r = v.clone();
    assert(r@ =~= v@);
    r
}

/// A copy of an optional byte string.
pub fn copy_opt_bytes(v: &Option<Vec<u8>>) -> (r: Option<Vec<u8>>)
    ensures
        opt_view(r) == opt_view(*v),
{
    match v {
        Some(b) => Some(copy_bytes(b)),
        None => None,
    }
}

/// The contents of an optional byte string.
pub open spec fn opt_view(v: Option<Vec<u8>>) -> Option<Seq<u8>> {
    match v {
        Some(b) => Some(b@),
        None => None,
    }
}

/// The bytes `s[start..end]`, copied.
pub fn slice_to_vec(s: &[u8], start: usize, end: usize) -> (r: Vec<u8>)
    requires
        start <= end <= s@.len(),
    ensures
        r@ == s@.subrange(start as int, end as int),
{
    let mut r: Vec<u8> = Vec::new();
    let mut i: usize = start;
    while i < end
        invariant
            start <= i <= end <= s@.len(),
            r@ == s@.subrange(start as int, i as int),
        decreases end - i,
    {
        r.push(s[i]);
        i = i + 1;
        assert(s@.subrange(start as int, i as int) =~= s@.subrange(start as int, i - 1).push(
            s@[i - 1],
        ));
    }
    r
}

/// Whether two byte strings are equal.
pub fn bytes_eq(a: &[u8], b: &[u8]) -> (r: bool)
    ensures
        r == (a@ == b@),
{
    if a.len() != b.len() {
        return false;
    }
    let mut i: usize = 0;
    while i < a.len()
        invariant
            a@.len() == b@.len(),
            i <= a@.len(),
            forall|j: int| 0 <= j < i ==> a@[j] == b@[j],
        decreases a@.len() - i,
    {
        if a[i] != b[i] {
            return false;
        }
        i = i + 1;
    }
    assert(a@ =~= b@);
    true
}

/// Whether `s` begins with `prefix`.
pub fn starts_with(s: &[u8], prefix: &[u8]) -> (r: bool)
    ensures
        r == (prefix@.len() <= s@.len() && s@.subrange(0, prefix@.len() as int) == prefix@),
{
    if prefix.len() > s.len() {
        return false;
    }
    let mut i: usize = 0;
    while i < prefix.len()
        invariant
            prefix@.len() <= s@.len(),
            i <= prefix@.len(),
            forall|j: int| 0 <= j < i ==> s@[j] == prefix@[j],
        decreases prefix@.len() - i,
    {
        if s[i] != prefix[i] {
            assert(s@.subrange(0, prefix@.len() as int)[i as int] != prefix@[i as int]);
            return false;
        }
        i = i + 1;
    }
    assert(s@.subrange(0, prefix@.len() as int) =~= prefix@);
    true
}

/// `n` newline bytes.
pub open spec fn newlines(n: nat) -> Seq<u8> {
    Seq::new(n, |i: int| 10u8)
}

/// Appends `n` newline bytes to `out`.
pub fn push_newlines(out: &mut Vec<u8>, n: usize)
    ensures
        final(out)@ == old(out)@ + newlines(n as nat),
{
    let mut i: usize = 0;
    while i < n
        invariant
            i <= n,
            out@ == old(out)@ + newlines(i as nat),
        decreases n - i,
    {
        out.push(10);
        i = i + 1;
        assert(old(out)@ + newlines(i as nat) =~= (old(out)@ + newlines((i - 1) as nat)).push(10u8));
    }
}

/// The position of the first newline of `s` at or after `i`, or the length
/// of `s` when there is none.
pub open spec fn newline_pos(s: Seq<u8>, i: int) -> int
    decreases s.len() - i,
{
    if i >= s.len() {
        s.len() as int
    } else if s[i] == 10 {
        i
    } else {
        newline_pos(s, i + 1)
    }
}

/// The first newline at or after `i` is not before `i`.
pub proof fn lemma_newline_pos(s: Seq<u8>, i: int)
    requires
        0 <= i,
    ensures
        i <= s.len() ==> i <= newline_pos(s, i) <= s.len(),
        i < newline_pos(s, i) ==> i < s.len() && s[i] != 10,
        newline_pos(s, i) < s.len() ==> s[newline_pos(s, i)] == 10,
    decreases s.len() - i,
{
    if i < s.len() && s[i] != 10 {
        lemma_newline_pos(s, i + 1);
    }
}

/// `line` without a final carriage return.
pub open spec fn strip_cr(line: Seq<u8>) -> Seq<u8> {
    if line.len() > 0 && line.last() == 13 {
        line.drop_last()
    } else {
        line
    }
}

/// The lines of `s` from `start` on: split at each newline, dropping a
/// carriage return that ends a line before its newline; a final newline
/// starts no further line.
pub open spec fn lines_from(s: Seq<u8>, start: int) -> Seq<Seq<u8>>
    decreases s.len() - start,
{
    if start < 0 || start >= s.len() {
        Seq::empty()
    } else {
        let k = newline_pos(s, start);
        proof {
            lemma_newline_pos(s, start);
        }
        if k >= s.len() {
            seq![s.subrange(start, s.len() as int)]
        } else {
            seq![strip_cr(s.subrange(start, k))] + lines_from(s, k + 1)
        }
    }
}

/// The lines of `s` (see [`lines_from`]).
pub open spec fn lines(s: Seq<u8>) -> Seq<Seq<u8>> {
    lines_from(s, 0)
}

/// The views of a vector of byte strings.
pub open spec fn vecs_view(v: Seq<Vec<u8>>) -> Seq<Seq<u8>> {
    Seq::new(v.len(), |i: int| v[i]@)
}

/// The lines of `s`.
pub fn split_lines(s: &[u8]) -> (r: Vec<Vec<u8>>)
    ensures
        vecs_view(r@) == lines(s@),
{
    let mut out: Vec<Vec<u8>> = Vec::new();
    let mut start: usize = 0;
    while start < s.len()
        invariant
            start <= s@.len(),
            lines(s@) == vecs_view(out@) + lines_from(s@, start as int),
        decreases s@.len() - start,
    {
        let mut k: usize = start;
        while k < s.len() && s[k] != 10
            invariant
                start <= k <= s@.len(),
                newline_pos(s@, start as int) == newline_pos(s@, k as int),
            decreases s@.len() - k,
        {
            k = k + 1;
        }
        proof {
            lemma_newline_pos(s@, start as int);
        }
        let ghost before = vecs_view(out@);
        if k >= s.len() {
            let line = slice_to_vec(s, start, s.len());
            out.push(line);
            assert(vecs_view(out@) =~= before.push(s@.subrange(start as int, s@.len() as int)));
            assert(lines_from(s@, s@.len() as int) =~= Seq::<Seq<u8>>::empty());
            start = s.len();
            assert(lines(s@) =~= vecs_view(out@) + lines_from(s@, start as int));
        } else {
            let mut end = k;
            if end > start && s[end - 1] == 13 {
                end = end - 1;
            }
            let line = slice_to_vec(s, start, end);
            assert(line@ =~= strip_cr(s@.subrange(start as int, k as int)));
            out.push(line);
            assert(vecs_view(out@) =~= before.push(strip_cr(s@.subrange(start as int, k as int))));
            start = k + 1;
            assert(lines(s@) =~= vecs_view(out@) + lines_from(s@, start as int));
        }
    }
    assert(lines_from(s@, start as int) =~= Seq::<Seq<u8>>::empty());
    assert(vecs_view(out@) =~= lines(s@));
    out
}

/// The byte length of the Unicode white-space character encoded at `i`, or 0
/// when none starts there: tab to carriage return, space, U+0085, U+00A0,
/// U+1680, U+2000 to U+200A, U+2028, U+2029, U+202F, U+205F and U+3000.
pub open spec fn ws_len_at(s: Seq<u8>, i: int) -> int {
    if i < 0 || i >= s.len() {
        0
    } else if (9 <= s[i] && s[i] <= 13) || s[i] == 32 {
        1
    } else if s[i] == 0xC2 && i + 1 < s.len() && (s[i + 1] == 0x85 || s[i + 1] == 0xA0) {
        2
    } else if i + 2 < s.len() && ws3(s[i], s[i + 1], s[i + 2]) {
        3
    } else {
        0
    }
}

/// Whether three bytes encode one of the three-byte white-space characters.
pub open spec fn ws3(a: u8, b: u8, c: u8) -> bool {
    (a == 0xE1 && b == 0x9A && c == 0x80) || (a == 0xE2 && b == 0x80 && ((0x80 <= c && c <= 0x8A)
        || c == 0xA8 || c == 0xA9 || c == 0xAF)) || (a == 0xE2 && b == 0x81 && c == 0x9F) || (a
        == 0xE3 && b == 0x80 && c == 0x80)
}

/// The byte length of the white-space character that ends at `j`, or 0.
pub open spec fn ws_len_before(s: Seq<u8>, j: int) -> int {
    if j <= 0 || j > s.len() {
        0
    } else if (9 <= s[j - 1] && s[j - 1] <= 13) || s[j - 1] == 32 {
        1
    } else if j >= 2 && s[j - 2] == 0xC2 && (s[j - 1] == 0x85 || s[j - 1] == 0xA0) {
        2
    } else if j >= 3 && ws3(s[j - 3], s[j - 2], s[j - 1]) {
        3
    } else {
        0
    }
}

/// Where the text of `s` starts after leading white space from `i` on.
pub open spec fn trim_start_from(s: Seq<u8>, i: int) -> int
    decreases s.len() - i,
{
    if 0 <= i < s.len() && ws_len_at(s, i) > 0 {
        trim_start_from(s, i + ws_len_at(s, i))
    } else {
        i
    }
}

/// Where the text of `s[lo..j]` ends before trailing white space.
pub open spec fn trim_end_from(s: Seq<u8>, lo: int, j: int) -> int
    decreases j,
{
    if j > lo && ws_len_before(s, j) > 0 && j - ws_len_before(s, j) >= lo {
        trim_end_from(s, lo, j - ws_len_before(s, j))
    } else {
        j
    }
}

/// `s` without leading and trailing Unicode white space.
pub open spec fn trim(s: Seq<u8>) -> Seq<u8> {
    let a = trim_start_from(s, 0);
    s.subrange(a, trim_end_from(s, a, s.len() as int))
}

fn ws_len_at_exec(s: &[u8], i: usize) -> (r: usize)
    ensures
        r == ws_len_at(s@, i as int),
{
    if i >= s.len() {
        0
    } else if (9 <= s[i] && s[i] <= 13) || s[i] == 32 {
        1
    } else if s[i] == 0xC2 && i + 1 < s.len() && (s[i + 1] == 0x85 || s[i + 1] == 0xA0) {
        2
    } else if s.len() - i > 2 && ws3_exec(s[i], s[i + 1], s[i + 2]) {
        3
    } else {
        0
    }
}

fn ws3_exec(a: u8, b: u8, c: u8) -> (r: bool)
    ensures
        r == ws3(a, b, c),
{
    (a == 0xE1 && b == 0x9A && c == 0x80) || (a == 0xE2 && b == 0x80 && ((0x80 <= c && c <= 0x8A)
        || c == 0xA8 || c == 0xA9 || c == 0xAF)) || (a == 0xE2 && b == 0x81 && c == 0x9F) || (a
        == 0xE3 && b == 0x80 && c == 0x80)
}

fn ws_len_before_exec(s: &[u8], j: usize) -> (r: usize)
    ensures
        r == ws_len_before(s@, j as int),
{
    if j == 0 || j > s.len() {
        0
    } else if (9 <= s[j - 1] && s[j - 1] <= 13) || s[j - 1] == 32 {
        1
    } else if j >= 2 && s[j - 2] == 0xC2 && (s[j - 1] == 0x85 || s[j - 1] == 0xA0) {
        2
    } else if j >= 3 && ws3_exec(s[j - 3], s[j - 2], s[j - 1]) {
        3
    } else {
        0
    }
}

/// `s` without leading and trailing Unicode white space.
pub fn trim_bytes(s: &[u8]) -> (r: Vec<u8>)
    ensures
        r@ == trim(s@),
{
    let mut a: usize = 0;
    while a < s.len() && ws_len_at_exec(s, a) > 0
        invariant
            a <= s@.len(),
            trim_start_from(s@, 0) == trim_start_from(s@, a as int),
        decreases s@.len() - a,
    {
        a = a + ws_len_at_exec(s, a);
    }
    let mut b: usize = s.len();
    while b > a && ws_len_before_exec(s, b) > 0 && b - ws_len_before_exec(s, b) >= a
        invariant
            a <= b <= s@.len(),
            trim_end_from(s@, a as int, s@.len() as int) == trim_end_from(s@, a as int, b as int),
        decreases b,
    {
        b = b - ws_len_before_exec(s, b);
    }
    slice_to_vec(s, a, b)
}

/// `n` copies of the byte `b`.
pub open spec fn repeat(b: u8, n: nat) -> Seq<u8> {
    Seq::new(n, |i: int| b)
}

/// Appends `n` copies of `b` to `out`.
pub fn push_repeat(out: &mut Vec<u8>, b: u8, n: usize)
    ensures
        final(out)@ == old(out)@ + repeat(b, n as nat),
{
    let mut i: usize = 0;
    while i < n
        invariant
            i <= n,
            out@ == old(out)@ + repeat(b, i as nat),
        decreases n - i,
    {
        out.push(b);
        i = i + 1;
        assert(old(out)@ + repeat(b, i as nat) =~= (old(out)@ + repeat(b, (i - 1) as nat)).push(b));
    }
}

} // verus!
