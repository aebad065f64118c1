//! Character-level text utilities with their specifications.
//!
//! Text is modelled by its sequence of Unicode scalar values (`s@`).  Byte
//! lengths, where a limit is stated in bytes, are the UTF-8 lengths given by
//! `utf8_len`.

use vstd::prelude::*;

verus! {

broadcast use vstd::string::group_string_axioms;

/// Appends one character to a `String` (std's `String::push`).
#[verifier::external_body]
pub(crate) fn push_char(s: &mut String, c: char)
    ensures
        final(s)@ == old(s)@.push(c),
{
    s.push(c);
}

/// The characters of `s`, in order.
pub fn chars_of(s: &str) -> (v: Vec<char>)
    ensures
        v@ == s@,
{
    let mut v: Vec<char> = Vec::new();
    for c in it: s.chars()
        invariant
            v@ == it.seq().take(it.index()),
    {
        v.push(c);
    }
    v
}

/// A `String` holding exactly the characters `cs`.
pub fn string_of(cs: &[char]) -> (s: String)
    ensures
        s@ == cs@,
{
    let mut s = String::new();
    let n = cs.len();
    let mut i: usize = 0;
    while i < n
        invariant
            n == cs@.len(),
            i <= n,
            s@ == cs@.take(i as int),
        decreases n - i,
    {
        push_char(&mut s, cs[i]);
        i = i + 1;
        assert(s@ == cs@.take(i as int));
    }
    assert(cs@.take(n as int) == cs@);
    s
}

/// Appends the characters `cs` to `s`.
pub fn push_chars(s: &mut String, cs: &[char])
    ensures
        final(s)@ == old(s)@ + cs@,
{
    let n = cs.len();
    let mut i: usize = 0;
    while i < n
        invariant
            n == cs@.len(),
            i <= n,
            s@ == old(s)@ + cs@.take(i as int),
        decreases n - i,
    {
        push_char(s, cs[i]);
        i = i + 1;
        assert(s@ == old(s)@ + cs@.take(i as int));
    }
    assert(cs@.take(n as int) == cs@);
}

/// Appends the text `t` to `s`.
pub fn push_str(s: &mut String, t: &str)
    ensures
        final(s)@ == old(s)@ + t@,
{
    s.append(t);
}

// ---------------------------------------------------------------------------
// Whitespace and trimming
// ---------------------------------------------------------------------------

/// Unicode `White_Space`, the property behind `char::is_whitespace`.
pub open spec fn is_space(c: char) -> bool {
    let u = c as u32;
    ||| 0x9 <= u <= 0xd
    ||| u == 0x20
    ||| u == 0x85
    ||| u == 0xa0
    ||| u == 0x1680
    ||| 0x2000 <= u <= 0x200a
    ||| u == 0x2028
    ||| u == 0x2029
    ||| u == 0x202f
    ||| u == 0x205f
    ||| u == 0x3000
}

/// Executable test for `is_space`.
pub fn is_space_char(c: char) -> (b: bool)
    ensures
        b == is_space(c),
{
    let u = c as u32;
    (0x9 <= u && u <= 0xd) || u == 0x20 || u == 0x85 || u == 0xa0 || u == 0x1680 || (0x2000
        <= u && u <= 0x200a) || u == 0x2028 || u == 0x2029 || u == 0x202f || u == 0x205f || u
        == 0x3000
}

/// Number of whitespace characters at the start of `s`.
pub open spec fn lead_spaces(s: Seq<char>) -> nat
    decreases s.len(),
{
    if s.len() > 0 && is_space(s[0]) {
        1 + lead_spaces(s.drop_first())
    } else {
        0
    }
}

/// Number of whitespace characters at the end of `s`.
pub open spec fn trail_spaces(s: Seq<char>) -> nat
    decreases s.len(),
{
    if s.len() > 0 && is_space(s.last()) {
        1 + trail_spaces(s.drop_last())
    } else {
        0
    }
}

/// `s` without leading whitespace (`str::trim_start`).
pub open spec fn trim_start(s: Seq<char>) -> Seq<char> {
    s.skip(lead_spaces(s) as int)
}

/// `s` without trailing whitespace (`str::trim_end`).
pub open spec fn trim_end(s: Seq<char>) -> Seq<char> {
    s.take(s.len() - trail_spaces(s))
}

/// `s` without leading or trailing whitespace (`str::trim`).
pub open spec fn trim(s: Seq<char>) -> Seq<char> {
    trim_end(trim_start(s))
}

proof fn lemma_lead_spaces_bound(s: Seq<char>)
    ensures
        lead_spaces(s) <= s.len(),
    decreases s.len(),
{
    if s.len() > 0 && is_space(s[0]) {
        lemma_lead_spaces_bound(s.drop_first());
    }
}

proof fn lemma_trail_spaces_bound(s: Seq<char>)
    ensures
        trail_spaces(s) <= s.len(),
    decreases s.len(),
{
    if s.len() > 0 && is_space(s.last()) {
        lemma_trail_spaces_bound(s.drop_last());
    }
}

/// The number of leading whitespace characters of `cs`.
pub fn count_lead_spaces(cs: &[char]) -> (n: usize)
    ensures
        n == lead_spaces(cs@),
        n <= cs@.len(),
{
    let len = cs.len();
    let mut i: usize = 0;
    assert(cs@.skip(0) == cs@);
    while i < len && is_space_char(cs[i])
        invariant
            len == cs@.len(),
            i <= len,
            lead_spaces(cs@) == i + lead_spaces(cs@.skip(i as int)),
        decreases len - i,
    {
        assert(cs@.skip(i as int).drop_first() == cs@.skip(i + 1));
        i = i + 1;
    }
    proof {
        lemma_lead_spaces_bound(cs@);
    }
    i
}

/// The number of trailing whitespace characters of `cs`.
pub fn count_trail_spaces(cs: &[char]) -> (n: usize)
    ensures
        n == trail_spaces(cs@),
        n <= cs@.len(),
{
    let len = cs.len();
    let mut i: usize = 0;
    assert(cs@.take(len as int) == cs@);
    while i < len && is_space_char(cs[len - 1 - i])
        invariant
            len == cs@.len(),
            i <= len,
            trail_spaces(cs@) == i + trail_spaces(cs@.take(len - i)),
        decreases len - i,
    {
        assert(cs@.take(len - i).drop_last() == cs@.take(len - (i + 1)));
        i = i + 1;
    }
    proof {
        lemma_trail_spaces_bound(cs@);
    }
    i
}

/// `cs` without leading or trailing whitespace.
pub fn trim_slice(cs: &[char]) -> (r: &[char])
    ensures
        r@ == trim(cs@),
{
    let a = count_lead_spaces(cs);
    let rest = &cs[a..cs.len()];
    assert(rest@ == trim_start(cs@));
    let b = count_trail_spaces(rest);
    &rest[0..rest.len() - b]
}

// ---------------------------------------------------------------------------
// Decimal notation
// ---------------------------------------------------------------------------

/// The decimal digit for `d < 10`.
pub open spec fn digit(d: nat) -> char {
    (48 + d) as char
}

/// Decimal notation of `n`, without leading zeros (`n.to_string()`).
pub open spec fn dec(n: nat) -> Seq<char>
    decreases n,
{
    if n < 10 {
        seq![digit(n)]
    } else {
        dec(n / 10).push(digit(n % 10))
    }
}

/// Decimal notation of a signed integer, with a leading `-` when negative.
pub open spec fn dec_int(i: int) -> Seq<char> {
    if i < 0 {
        seq!['-'] + dec((-i) as nat)
    } else {
        dec(i as nat)
    }
}

/// The decimal digit for `d < 10`.
pub fn digit_char(d: u64) -> (c: char)
    requires
        d < 10,
    ensures
        c == digit(d as nat),
{
    let b: u8 = 48u8 + (d as u8);
    b as char
}

/// Appends the decimal notation of `n` to `s`.
pub fn push_dec(s: &mut String, n: u64)
    ensures
        final(s)@ == old(s)@ + dec(n as nat),
    decreases n,
{
    if n < 10 {
        push_char(s, digit_char(n));
    } else {
        push_dec(s, n / 10);
        push_char(s, digit_char(n % 10));
        assert(old(s)@ + dec(n as nat) == old(s)@ + dec((n / 10) as nat) + seq![digit((n % 10) as nat)]);
    }
}

/// Appends the decimal notation of a signed `n` to `s`.
pub fn push_dec_i64(s: &mut String, n: i64)
    ensures
        final(s)@ == old(s)@ + dec_int(n as int),
{
    if n < 0 {
        push_char(s, '-');
        let m: u64 = if n == i64::MIN {
            9223372036854775808u64
        } else {
            (-n) as u64
        };
        push_dec(s, m);
    } else {
        push_dec(s, n as u64);
    }
}

/// Decimal notation of `n`.
pub fn dec_string(n: u64) -> (s: String)
    ensures
        s@ == dec(n as nat),
{
    let mut s = String::new();
    push_dec(&mut s, n);
    s
}


/// Appends `dec(n)` padded on the left with spaces to at least `width`
/// characters (the `{:>width}` format).
pub open spec fn pad_left(t: Seq<char>, width: nat) -> Seq<char> {
    if t.len() < width {
        Seq::new((width - t.len()) as nat, |i: int| ' ') + t
    } else {
        t
    }
}

/// Appends `t` right-aligned in a field of `width` characters.
pub fn push_padded(s: &mut String, t: &[char], width: usize)
    ensures
        final(s)@ == old(s)@ + pad_left(t@, width as nat),
{
    let mut k: usize = 0;
    let pad: usize = if t.len() < width {
        width - t.len()
    } else {
        0
    };
    while k < pad
        invariant
            k <= pad,
            s@ == old(s)@ + Seq::new(k as nat, |i: int| ' '),
        decreases pad - k,
    {
        push_char(s, ' ');
        k = k + 1;
        assert(s@ == old(s)@ + Seq::new(k as nat, |i: int| ' '));
    }
    push_chars(s, t);
    assert(pad_left(t@, width as nat) == Seq::new(pad as nat, |i: int| ' ') + t@);
}

/// Decimal notation of `n` as characters.
pub fn dec_chars(n: u64) -> (v: Vec<char>)
    ensures
        v@ == dec(n as nat),
{
    let s = dec_string(n);
    chars_of(s.as_str())
}

// ---------------------------------------------------------------------------
// UTF-8 lengths and byte-limited truncation
// ---------------------------------------------------------------------------

/// Number of bytes in the UTF-8 encoding of `c`.
pub open spec fn utf8_width(c: char) -> nat {
    let u = c as u32;
    if u < 0x80 {
        1
    } else if u < 0x800 {
        2
    } else if u < 0x10000 {
        3
    } else {
        4
    }
}

/// Number of bytes in the UTF-8 encoding of `s` (`str::len`).
pub open spec fn utf8_len(s: Seq<char>) -> nat
    decreases s.len(),
{
    if s.len() == 0 {
        0
    } else {
        utf8_width(s[0]) + utf8_len(s.drop_first())
    }
}

/// Number of leading characters of `s` whose encoding fits in `n` bytes.
pub open spec fn fit_count(s: Seq<char>, n: nat) -> nat
    decreases s.len(),
{
    if s.len() > 0 && utf8_width(s[0]) <= n {
        1 + fit_count(s.drop_first(), (n - utf8_width(s[0])) as nat)
    } else {
        0
    }
}

/// Byte `n` of `s` lies on a character boundary, or past the end
/// (`str::is_char_boundary`, which `String::truncate` asserts).
pub open spec fn cuts_cleanly(s: Seq<char>, n: nat) -> bool
    decreases s.len(),
{
    if s.len() == 0 || n == 0 {
        true
    } else if utf8_width(s[0]) <= n {
        cuts_cleanly(s.drop_first(), (n - utf8_width(s[0])) as nat)
    } else {
        false
    }
}

/// Output held to `limit` bytes: when longer, the first `limit` bytes
/// followed by `marker` (`truncate` then `push_str`).
pub open spec fn clip(s: Seq<char>, limit: nat, marker: Seq<char>) -> Seq<char> {
    if utf8_len(s) > limit {
        s.take(fit_count(s, limit) as int) + marker
    } else {
        s
    }
}

/// Executable `utf8_width`.
pub fn utf8_width_of(c: char) -> (w: usize)
    ensures
        w == utf8_width(c),
{
    let u = c as u32;
    if u < 0x80 {
        1
    } else if u < 0x800 {
        2
    } else if u < 0x10000 {
        3
    } else {
        4
    }
}

/// At most every character fits, and all fit exactly when the text does.
pub proof fn lemma_fit_count_bound(s: Seq<char>, n: nat)
    ensures
        fit_count(s, n) <= s.len(),
        fit_count(s, n) == s.len() <==> utf8_len(s) <= n,
    decreases s.len(),
{
    if s.len() > 0 {
        if utf8_width(s[0]) <= n {
            lemma_fit_count_bound(s.drop_first(), (n - utf8_width(s[0])) as nat);
        }
    }
}

/// The byte length of a concatenation is the sum of the byte lengths.
pub proof fn lemma_utf8_len_concat(a: Seq<char>, b: Seq<char>)
    ensures
        utf8_len(a + b) == utf8_len(a) + utf8_len(b),
    decreases a.len(),
{
    if a.len() > 0 {
        assert((a + b).drop_first() =~= a.drop_first() + b);
        assert((a + b)[0] == a[0]);
        lemma_utf8_len_concat(a.drop_first(), b);
    } else {
        assert(a + b =~= b);
    }
}

/// The characters that fit in `n` bytes take at most `n` bytes.
proof fn lemma_fit_prefix_len(s: Seq<char>, n: nat)
    ensures
        utf8_len(s.take(fit_count(s, n) as int)) <= n,
    decreases s.len(),
{
    lemma_fit_count_bound(s, n);
    if s.len() > 0 && utf8_width(s[0]) <= n {
        let m = (n - utf8_width(s[0])) as nat;
        let k = fit_count(s, n);
        lemma_fit_prefix_len(s.drop_first(), m);
        lemma_fit_count_bound(s.drop_first(), m);
        assert(s.take(k as int).drop_first() =~= s.drop_first().take(fit_count(s.drop_first(), m) as int));
        assert(s.take(k as int)[0] == s[0]);
    } else {
        assert(s.take(fit_count(s, n) as int) =~= Seq::<char>::empty());
    }
}

/// Text held to a limit is unchanged when it fits; otherwise it is a prefix
/// of the text followed by the marker.  Either way it takes at most the
/// limit plus the marker's bytes.
pub proof fn lemma_clip_bound(s: Seq<char>, limit: nat, marker: Seq<char>)
    ensures
        utf8_len(s) <= limit ==> clip(s, limit, marker) == s,
        utf8_len(s) > limit ==> clip(s, limit, marker) == s.take(fit_count(s, limit) as int)
            + marker && fit_count(s, limit) < s.len(),
        utf8_len(clip(s, limit, marker)) <= limit + utf8_len(marker),
{
    lemma_fit_count_bound(s, limit);
    if utf8_len(s) > limit {
        lemma_fit_prefix_len(s, limit);
        lemma_utf8_len_concat(s.take(fit_count(s, limit) as int), marker);
    }
}

/// `fit_count(cs@, limit)`, with whether the cut at `limit` bytes is clean.
pub fn fit_prefix(cs: &[char], limit: usize) -> (r: (usize, bool))
    ensures
        r.0 == fit_count(cs@, limit as nat),
        r.1 == cuts_cleanly(cs@, limit as nat),
{
    let len = cs.len();
    let mut i: usize = 0;
    let mut room: usize = limit;
    assert(cs@.skip(0) == cs@);
    while i < len && utf8_width_of(cs[i]) <= room
        invariant
            len == cs@.len(),
            i <= len,
            room <= limit,
            fit_count(cs@, limit as nat) == i + fit_count(cs@.skip(i as int), room as nat),
            cuts_cleanly(cs@, limit as nat) == cuts_cleanly(cs@.skip(i as int), room as nat),
        decreases len - i,
    {
        assert(cs@.skip(i as int).drop_first() == cs@.skip(i + 1));
        assert(cs@.skip(i as int)[0] == cs@[i as int]);
        room = room - utf8_width_of(cs[i]);
        i = i + 1;
    }
    if i < len {
        assert(cs@.skip(i as int)[0] == cs@[i as int]);
    }
    (i, i == len || room == 0)
}

/// Appends `cs` to `out`, held to `limit` bytes with `marker` appended when
/// cut (`if out.len() > limit { out.truncate(limit); out.push_str(marker) }`).
pub fn push_clipped(out: &mut String, cs: &[char], limit: usize, marker: &str)
    requires
        cuts_cleanly(cs@, limit as nat),
    ensures
        final(out)@ == old(out)@ + clip(cs@, limit as nat, marker@),
{
    let (k, _clean) = fit_prefix(cs, limit);
    proof {
        lemma_fit_count_bound(cs@, limit as nat);
    }
    if k < cs.len() {
        push_chars(out, &cs[0..k]);
        push_str(out, marker);
    } else {
        push_chars(out, cs);
    }
}

// ---------------------------------------------------------------------------
// Searching
// ---------------------------------------------------------------------------

/// Position of the first `c` in `s`.
pub open spec fn index_of(s: Seq<char>, c: char) -> Option<nat>
    decreases s.len(),
{
    if s.len() == 0 {
        None
    } else if s[0] == c {
        Some(0)
    } else {
        match index_of(s.drop_first(), c) {
            Some(i) => Some(i + 1),
            None => None,
        }
    }
}

/// `index_of` is the first occurrence.
pub proof fn lemma_index_of(s: Seq<char>, c: char, k: int)
    requires
        0 <= k <= s.len(),
        forall|j: int| 0 <= j < k ==> s[j] != c,
    ensures
        k < s.len() && s[k] == c ==> index_of(s, c) == Some(k as nat),
        k == s.len() ==> index_of(s, c) is None,
    decreases k,
{
    if k > 0 {
        lemma_index_of(s.drop_first(), c, k - 1);
    }
}

/// `s` begins with `p`.
pub open spec fn has_prefix(s: Seq<char>, p: Seq<char>) -> bool {
    p.len() <= s.len() && s.take(p.len() as int) == p
}

/// Whether `cs[at..]` begins with `p`.
pub fn matches_at(cs: &[char], at: usize, p: &[char]) -> (b: bool)
    requires
        at <= cs@.len(),
    ensures
        b == has_prefix(cs@.skip(at as int), p@),
{
    let n = cs.len();
    let m = p.len();
    if m > n - at {
        return false;
    }
    let mut j: usize = 0;
    while j < m
        invariant
            n == cs@.len(),
            m == p@.len(),
            at + m <= n,
            j <= m,
            forall|k: int| 0 <= k < j ==> cs@[at + k] == p@[k],
        decreases m - j,
    {
        if cs[at + j] != p[j] {
            assert(cs@.skip(at as int).take(m as int)[j as int] != p@[j as int]);
            return false;
        }
        j = j + 1;
    }
    assert(cs@.skip(at as int).take(m as int) == p@);
    true
}


/// The position `index_of` gives holds the character.
pub proof fn lemma_index_of_bound(s: Seq<char>, c: char)
    ensures
        index_of(s, c) matches Some(i) ==> i < s.len() && s[i as int] == c,
    decreases s.len(),
{
    if s.len() > 0 && s[0] != c {
        lemma_index_of_bound(s.drop_first(), c);
    }
}

/// Number of non-overlapping occurrences of a non-empty `p` in `s`, found
/// left to right (`str::matches(p).count()`).
pub open spec fn count_matches(s: Seq<char>, p: Seq<char>) -> nat
    decreases s.len(),
{
    if p.len() == 0 || s.len() < p.len() {
        0
    } else if has_prefix(s, p) {
        1 + count_matches(s.skip(p.len() as int), p)
    } else {
        count_matches(s.drop_first(), p)
    }
}

/// Position of the first occurrence of `p` in `s` (`str::find`).
pub open spec fn find(s: Seq<char>, p: Seq<char>) -> Option<nat>
    decreases s.len(),
{
    if has_prefix(s, p) {
        Some(0)
    } else if s.len() == 0 {
        None
    } else {
        match find(s.drop_first(), p) {
            Some(i) => Some(i + 1),
            None => None,
        }
    }
}

/// `s` with its first occurrence of `p` replaced by `r` (`str::replacen(p, r, 1)`).
pub open spec fn replace_first(s: Seq<char>, p: Seq<char>, r: Seq<char>) -> Seq<char> {
    match find(s, p) {
        Some(i) => s.take(i as int) + r + s.skip((i + p.len()) as int),
        None => s,
    }
}

/// The occurrence `find` gives lies within the text.
pub proof fn lemma_find_bound(s: Seq<char>, p: Seq<char>)
    ensures
        find(s, p) matches Some(i) ==> i + p.len() <= s.len() && has_prefix(s.skip(i as int), p),
    decreases s.len(),
{
    if has_prefix(s, p) {
        assert(s.skip(0) == s);
    } else if s.len() > 0 {
        lemma_find_bound(s.drop_first(), p);
        if let Some(i) = find(s.drop_first(), p) {
            assert(s.drop_first().skip(i as int) == s.skip((i + 1) as int));
        }
    }
}

proof fn lemma_find_none_short(s: Seq<char>, p: Seq<char>)
    requires
        s.len() < p.len(),
    ensures
        find(s, p) is None,
    decreases s.len(),
{
    if s.len() > 0 {
        lemma_find_none_short(s.drop_first(), p);
    }
}

/// A match is found exactly when one occurs.
pub proof fn lemma_find_count(s: Seq<char>, p: Seq<char>)
    requires
        p.len() > 0,
    ensures
        find(s, p) is Some <==> count_matches(s, p) > 0,
    decreases s.len(),
{
    if s.len() >= p.len() && !has_prefix(s, p) {
        lemma_find_count(s.drop_first(), p);
    }
    if s.len() < p.len() {
        assert(!has_prefix(s, p));
        lemma_find_none_short(s, p);
    }
}

/// The number of non-overlapping occurrences of the non-empty `p` in `cs`.
pub fn count_occurrences(cs: &[char], p: &[char]) -> (n: usize)
    requires
        p@.len() > 0,
    ensures
        n == count_matches(cs@, p@),
{
    let len = cs.len();
    let m = p.len();
    let mut i: usize = 0;
    let mut count: usize = 0;
    assert(cs@.skip(0) == cs@);
    while m <= len - i
        invariant
            len == cs@.len(),
            m == p@.len(),
            m > 0,
            i <= len,
            count <= i,
            count_matches(cs@, p@) == count + count_matches(cs@.skip(i as int), p@),
        decreases len - i,
    {
        if matches_at(cs, i, p) {
            assert(cs@.skip(i as int).skip(m as int) == cs@.skip(i + m));
            count = count + 1;
            i = i + m;
        } else {
            assert(cs@.skip(i as int).drop_first() == cs@.skip(i + 1));
            i = i + 1;
        }
    }
    count
}

/// The position of the first occurrence of `p` in `cs`.
pub fn find_first(cs: &[char], p: &[char]) -> (r: Option<usize>)
    ensures
        r matches Some(i) ==> find(cs@, p@) == Some(i as nat),
        r is None ==> find(cs@, p@) is None,
{
    let len = cs.len();
    let m = p.len();
    if m == 0 {
        assert(cs@.take(0) =~= p@);
        return Some(0);
    }
    let mut i: usize = 0;
    assert(cs@.skip(0) == cs@);
    while m <= len - i
        invariant
            len == cs@.len(),
            m == p@.len(),
            m > 0,
            i <= len,
            find(cs@, p@) == (match find(cs@.skip(i as int), p@) {
                Some(j) => Some((j + i) as nat),
                None => None,
            }),
        decreases len - i,
    {
        if matches_at(cs, i, p) {
            return Some(i);
        }
        assert(cs@.skip(i as int).drop_first() == cs@.skip(i + 1));
        i = i + 1;
    }
    proof {
        lemma_find_none_short(cs@.skip(i as int), p@);
    }
    None
}

// ---------------------------------------------------------------------------
// Lines
// ---------------------------------------------------------------------------

/// `t` without one trailing carriage return.
pub open spec fn strip_cr(t: Seq<char>) -> Seq<char> {
    if t.len() > 0 && t.last() == '\r' {
        t.drop_last()
    } else {
        t
    }
}

/// The lines of `s` as `str::lines` yields them: split at `\n`, a `\r`
/// right before the `\n` removed, and no empty line after a final `\n`.
pub open spec fn lines(s: Seq<char>) -> Seq<Seq<char>>
    decreases s.len(),
{
    if s.len() == 0 {
        seq![]
    } else {
        match index_of(s, '\n') {
            Some(i) => {
                proof {
                    lemma_index_of_bound(s, '\n');
                }
                seq![strip_cr(s.take(i as int))] + lines(s.skip((i + 1) as int))
            },
            None => seq![s],
        }
    }
}

/// `cs` without one trailing carriage return.
pub fn strip_cr_slice(cs: &[char]) -> (r: &[char])
    ensures
        r@ == strip_cr(cs@),
{
    let n = cs.len();
    if n > 0 && cs[n - 1] == '\r' {
        &cs[0..n - 1]
    } else {
        cs
    }
}

/// The lines of `cs` (`str::lines`).
pub fn lines_of(cs: &[char]) -> (v: Vec<Vec<char>>)
    ensures
        v.deep_view() == lines(cs@),
{
    let n = cs.len();
    let mut v: Vec<Vec<char>> = Vec::new();
    let mut start: usize = 0;
    let mut i: usize = 0;
    assert(cs@.skip(0) == cs@);
    while i < n
        invariant
            n == cs@.len(),
            start <= i <= n,
            forall|j: int| start <= j < i ==> cs@[j] != '\n',
            lines(cs@) == v.deep_view() + lines(cs@.skip(start as int)),
        decreases n - i,
    {
        if cs[i] == '\n' {
            let ghost rest = cs@.skip(start as int);
            proof {
                lemma_index_of(rest, '\n', i - start);
                assert(rest.take(i - start) == cs@.subrange(start as int, i as int));
                assert(rest.skip(i - start + 1) == cs@.skip(i + 1));
            }
            let line = strip_cr_slice(&cs[start..i]);
            let ghost old_v = v.deep_view();
            let lv = vstd::slice::slice_to_vec(line);
            assert(lv.deep_view() =~= line@);
            v.push(lv);
            assert(v.deep_view() =~= old_v.push(line@));
            start = i + 1;
        }
        i = i + 1;
    }
    if start < n {
        let ghost rest = cs@.skip(start as int);
        proof {
            lemma_index_of(rest, '\n', n - start);
        }
        let ghost old_v = v.deep_view();
        let lv = vstd::slice::slice_to_vec(&cs[start..n]);
        assert(lv.deep_view() =~= rest);
        v.push(lv);
        assert(v.deep_view() =~= old_v.push(rest));
    } else {
        assert(cs@.skip(start as int).len() == 0);
    }
    v
}

/// `s` with every `\n` and `\r` replaced by a space.
pub open spec fn flatten_newlines(s: Seq<char>) -> Seq<char> {
    s.map_values(|c: char| if c == '\n' || c == '\r' { ' ' } else { c })
}

/// Appends `cs` to `out` with line breaks turned into spaces
/// (`replace(['\n', '\r'], " ")`).
pub fn push_flattened(out: &mut String, cs: &[char])
    ensures
        final(out)@ == old(out)@ + flatten_newlines(cs@),
{
    let n = cs.len();
    let mut i: usize = 0;
    while i < n
        invariant
            n == cs@.len(),
            i <= n,
            out@ == old(out)@ + flatten_newlines(cs@.take(i as int)),
        decreases n - i,
    {
        let c = cs[i];
        let d = if c == '\n' || c == '\r' {
            ' '
        } else {
            c
        };
        push_char(out, d);
        assert(flatten_newlines(cs@.take(i + 1)) == flatten_newlines(cs@.take(i as int)).push(d));
        i = i + 1;
    }
    assert(cs@.take(n as int) == cs@);
}

/// Whether two character sequences are equal.
pub fn same_chars(a: &[char], b: &[char]) -> (r: bool)
    ensures
        r == (a@ == b@),
{
    if a.len() != b.len() {
        return false;
    }
    let r = matches_at(a, 0, b);
    assert(a@.skip(0) == a@);
    assert(r ==> a@.take(b@.len() as int) == a@);
    r
}

/// Whether two texts are equal.
pub fn same_text(a: &str, b: &str) -> (r: bool)
    ensures
        r == (a@ == b@),
{
    let x = chars_of(a);
    let y = chars_of(b);
    same_chars(x.as_slice(), y.as_slice())
}

/// The UTF-8 length of `s` is the length of its encoding.
pub proof fn lemma_utf8_len(s: Seq<char>)
    ensures
        vstd::utf8::encode_utf8(s).len() == utf8_len(s),
    decreases s.len(),
{
    if s.len() > 0 {
        vstd::utf8::char_is_scalar(s[0]);
        lemma_utf8_len(s.drop_first());
    }
}

/// The number of bytes of `s` (`str::len`).
pub fn byte_len(s: &str) -> (n: usize)
    requires
        utf8_len(s@) <= usize::MAX,
    ensures
        n == utf8_len(s@),
{
    proof {
        lemma_utf8_len(s@);
    }
    s.len()
}

} // verus!
