//! Character and string primitives used by the classifiers: whitespace
//! tests, trimming, prefix and substring search, and ordering, each with
//! a mathematical specification over `Seq<char>`.

use vstd::prelude::*;
use vstd::string::StrSliceExecFns;

verus! {

/// A character with the Unicode `White_Space` property, the set that
/// `str::trim` removes.
pub open spec fn is_ws(c: char) -> bool {
    let u = c as u32;
    ||| (0x09 <= u && u <= 0x0D)
    ||| u == 0x20
    ||| u == 0x85
    ||| u == 0xA0
    ||| u == 0x1680
    ||| (0x2000 <= u && u <= 0x200A)
    ||| u == 0x2028
    ||| u == 0x2029
    ||| u == 0x202F
    ||| u == 0x205F
    ||| u == 0x3000
}

/// Executable whitespace test.
pub fn is_ws_char(c: char) -> (r: bool)
    ensures
        r == is_ws(c),
{
    let u = c as u32;
    (0x09 <= u && u <= 0x0D) || u == 0x20 || u == 0x85 || u == 0xA0 || u == 0x1680 || (0x2000 <= u
        && u <= 0x200A) || u == 0x2028 || u == 0x2029 || u == 0x202F || u == 0x205F || u == 0x3000
}

/// The sequence with its leading whitespace removed.
pub open spec fn ltrim(s: Seq<char>) -> Seq<char>
    decreases s.len(),
{
    if s.len() > 0 && is_ws(s[0]) {
        ltrim(s.drop_first())
    } else {
        s
    }
}

/// The sequence with its trailing whitespace removed.
pub open spec fn rtrim(s: Seq<char>) -> Seq<char>
    decreases s.len(),
{
    if s.len() > 0 && is_ws(s.last()) {
        rtrim(s.drop_last())
    } else {
        s
    }
}

/// The sequence with leading and trailing whitespace removed, as
/// `str::trim` leaves it.
pub open spec fn trim(s: Seq<char>) -> Seq<char> {
    rtrim(ltrim(s))
}

/// `ltrim` drops exactly the leading run of whitespace.
pub proof fn lemma_ltrim_skip(s: Seq<char>, lo: int)
    requires
        0 <= lo <= s.len(),
        forall|j: int| 0 <= j < lo ==> is_ws(s[j]),
        lo == s.len() || !is_ws(s[lo]),
    ensures
        ltrim(s) == s.skip(lo),
    decreases lo,
{
    if lo == 0 {
        assert(s.skip(0) == s);
    } else {
        assert(is_ws(s[0]));
        lemma_ltrim_skip(s.drop_first(), lo - 1);
        assert(s.drop_first().skip(lo - 1) =~= s.skip(lo));
    }
}

/// `rtrim` drops exactly the trailing run of whitespace.
pub proof fn lemma_rtrim_take(s: Seq<char>, hi: int)
    requires
        0 <= hi <= s.len(),
        forall|j: int| hi <= j < s.len() ==> is_ws(s[j]),
        hi == 0 || !is_ws(s[hi - 1]),
    ensures
        rtrim(s) == s.take(hi),
    decreases s.len(),
{
    if hi == s.len() {
        if s.len() > 0 {
            assert(!is_ws(s.last()));
        }
        assert(s.take(hi) == s);
    } else {
        assert(is_ws(s.last()));
        lemma_rtrim_take(s.drop_last(), hi);
        assert(s.drop_last().take(hi) =~= s.take(hi));
    }
}

/// A sequence trims to empty exactly when all of it is whitespace.
pub proof fn lemma_trim_empty_iff_all_ws(s: Seq<char>)
    ensures
        trim(s).len() == 0 <==> (forall|j: int| 0 <= j < s.len() ==> is_ws(s[j])),
    decreases s.len(),
{
    if s.len() == 0 {
    } else if is_ws(s[0]) {
        lemma_trim_empty_iff_all_ws(s.drop_first());
        assert(ltrim(s) == ltrim(s.drop_first()));
        if forall|j: int| 0 <= j < s.drop_first().len() ==> is_ws(s.drop_first()[j]) {
            assert forall|j: int| 0 <= j < s.len() implies is_ws(s[j]) by {
                if j > 0 {
                    assert(s.drop_first()[j - 1] == s[j]);
                }
            }
        } else {
            let j = choose|j: int|
                0 <= j < s.drop_first().len() && !is_ws(s.drop_first()[j]);
            assert(!is_ws(s[j + 1]));
        }
    } else {
        assert(ltrim(s) == s);
        lemma_rtrim_keeps_head(s);
    }
}

/// If a sequence starts with a non-whitespace character, `rtrim` keeps
/// that character, so the result is not empty.
pub proof fn lemma_rtrim_keeps_head(s: Seq<char>)
    requires
        s.len() > 0,
        !is_ws(s[0]),
    ensures
        rtrim(s).len() > 0,
        rtrim(s)[0] == s[0],
    decreases s.len(),
{
    if is_ws(s.last()) {
        assert(s.len() >= 2);
        lemma_rtrim_keeps_head(s.drop_last());
    }
}

/// Trimming an already trimmed sequence changes nothing.
pub proof fn lemma_trim_idempotent(s: Seq<char>)
    ensures
        trim(trim(s)) == trim(s),
{
    let t = trim(s);
    if t.len() == 0 {
        assert(ltrim(t) == t);
        assert(rtrim(t) == t);
    } else {
        lemma_trim_bounds_exist(s);
        assert(!is_ws(t[0]));
        assert(!is_ws(t.last()));
        assert(ltrim(t) == t);
        assert(rtrim(t) == t);
    }
}

/// A non-empty trim result neither starts nor ends with whitespace.
pub proof fn lemma_trim_bounds_exist(s: Seq<char>)
    requires
        trim(s).len() > 0,
    ensures
        !is_ws(trim(s)[0]),
        !is_ws(trim(s).last()),
{
    lemma_ltrim_head(s);
    let x = ltrim(s);
    lemma_rtrim_last(x);
    assert(x.len() > 0);
    lemma_rtrim_keeps_head(x);
}

/// A non-empty `ltrim` result starts with a non-whitespace character.
pub proof fn lemma_ltrim_head(s: Seq<char>)
    ensures
        ltrim(s).len() > 0 ==> !is_ws(ltrim(s)[0]),
    decreases s.len(),
{
    if s.len() > 0 && is_ws(s[0]) {
        lemma_ltrim_head(s.drop_first());
    }
}

/// A non-empty `rtrim` result ends with a non-whitespace character.
pub proof fn lemma_rtrim_last(s: Seq<char>)
    ensures
        rtrim(s).len() > 0 ==> !is_ws(rtrim(s).last()),
    decreases s.len(),
{
    if s.len() > 0 && is_ws(s.last()) {
        lemma_rtrim_last(s.drop_last());
    }
}

/// Whether the whole string is whitespace, the blank-line test.
pub fn str_is_blank(s: &str) -> (r: bool)
    ensures
        r == (trim(s@).len() == 0),
{
    let n = s.unicode_len();
    let mut i: usize = 0;
    while i < n
        invariant
            i <= n,
            n == s@.len(),
            forall|j: int| 0 <= j < i ==> is_ws(s@[j]),
        decreases n - i,
    {
        if !is_ws_char(s.get_char(i)) {
            proof {
                lemma_trim_empty_iff_all_ws(s@);
            }
            return false;
        }
        i = i + 1;
    }
    proof {
        lemma_trim_empty_iff_all_ws(s@);
    }
    true
}

/// The bounds of the trimmed middle of `s`: `trim(s@)` is
/// `s@.subrange(r.0, r.1)`.
pub fn trim_bounds(s: &str) -> (r: (usize, usize))
    ensures
        r.0 <= r.1 <= s@.len(),
        trim(s@) == s@.subrange(r.0 as int, r.1 as int),
{
    let n = s.unicode_len();
    let mut lo: usize = 0;
    while lo < n && is_ws_char(s.get_char(lo))
        invariant
            lo <= n,
            n == s@.len(),
            forall|j: int| 0 <= j < lo ==> is_ws(s@[j]),
        decreases n - lo,
    {
        lo = lo + 1;
    }
    if lo == n {
        proof {
            lemma_ltrim_skip(s@, n as int);
            assert(ltrim(s@) =~= s@.subrange(n as int, n as int));
            assert(trim(s@) == s@.subrange(n as int, n as int));
        }
        return (n, n);
    }
    let mut hi: usize = n;
    while hi > lo + 1 && is_ws_char(s.get_char(hi - 1))
        invariant
            lo < hi <= n,
            n == s@.len(),
            !is_ws(s@[lo as int]),
            forall|j: int| hi <= j < n ==> is_ws(s@[j]),
        decreases hi,
    {
        hi = hi - 1;
    }
    proof {
        lemma_ltrim_skip(s@, lo as int);
        let x = s@.skip(lo as int);
        lemma_rtrim_take(x, hi - lo);
        assert(x.take(hi - lo) =~= s@.subrange(lo as int, hi as int));
    }
    (lo, hi)
}

/// The string with leading and trailing whitespace removed.
pub fn str_trim(s: &str) -> (r: &str)
    ensures
        r@ == trim(s@),
{
    let (lo, hi) = trim_bounds(s);
    s.substring_char(lo, hi)
}

/// `p` is a prefix of `s`.
pub open spec fn starts_with(s: Seq<char>, p: Seq<char>) -> bool {
    p.len() <= s.len() && s.subrange(0, p.len() as int) == p
}

/// `p` is a suffix of `s`.
pub open spec fn ends_with(s: Seq<char>, p: Seq<char>) -> bool {
    p.len() <= s.len() && s.subrange(s.len() - p.len(), s.len() as int) == p
}

/// `p` occurs in `s` at position `i`.
pub open spec fn matches_at(s: Seq<char>, p: Seq<char>, i: int) -> bool {
    0 <= i && i + p.len() <= s.len() && s.subrange(i, i + p.len()) == p
}

/// The first position at or after `from` where `p` occurs in `s`.
pub open spec fn find_from(s: Seq<char>, p: Seq<char>, from: int) -> Option<int>
    decreases s.len() - from + 1,
{
    if from < 0 || from + p.len() > s.len() {
        None
    } else if matches_at(s, p, from) {
        Some(from)
    } else {
        find_from(s, p, from + 1)
    }
}

/// The first position where `p` occurs in `s`.
pub open spec fn find(s: Seq<char>, p: Seq<char>) -> Option<int> {
    find_from(s, p, 0)
}

/// Before a found position there is no occurrence.
pub proof fn lemma_find_from_none_before(s: Seq<char>, p: Seq<char>, from: int, i: int)
    requires
        find_from(s, p, from) == Some(i),
    ensures
        forall|j: int| from <= j < i ==> !matches_at(s, p, j),
    decreases s.len() - from + 1,
{
    if from < 0 || from + p.len() > s.len() {
    } else if matches_at(s, p, from) {
    } else {
        lemma_find_from_some(s, p, from + 1, i);
        lemma_find_from_none_before(s, p, from + 1, i);
    }
}

/// A failed search means no occurrence at or after `from`.
pub proof fn lemma_find_from_none(s: Seq<char>, p: Seq<char>, from: int)
    requires
        0 <= from,
        find_from(s, p, from) is None,
    ensures
        forall|j: int| from <= j ==> !matches_at(s, p, j),
    decreases s.len() - from + 1,
{
    if from < 0 || from + p.len() > s.len() {
    } else if matches_at(s, p, from) {
    } else {
        lemma_find_from_none(s, p, from + 1);
    }
}

/// A found position is a real occurrence: `p` matches there, in bounds.
pub proof fn lemma_find_from_some(s: Seq<char>, p: Seq<char>, from: int, i: int)
    requires
        find_from(s, p, from) == Some(i),
    ensures
        matches_at(s, p, i),
        from <= i,
        i + p.len() <= s.len(),
    decreases s.len() - from + 1,
{
    if from < 0 || from + p.len() > s.len() {
    } else if matches_at(s, p, from) {
    } else {
        lemma_find_from_some(s, p, from + 1, i);
    }
}

/// Executable prefix test.
pub fn str_starts_with(s: &str, p: &str) -> (r: bool)
    ensures
        r == starts_with(s@, p@),
{
    let n = s.unicode_len();
    let m = p.unicode_len();
    if m > n {
        return false;
    }
    let mut j: usize = 0;
    while j < m
        invariant
            j <= m <= n,
            n == s@.len(),
            m == p@.len(),
            forall|k: int| 0 <= k < j ==> s@[k] == p@[k],
        decreases m - j,
    {
        if s.get_char(j) != p.get_char(j) {
            proof {
                assert(s@.subrange(0, m as int)[j as int] == s@[j as int]);
            }
            return false;
        }
        j = j + 1;
    }
    proof {
        assert(s@.subrange(0, m as int) =~= p@);
    }
    true
}

/// Executable suffix test.
pub fn str_ends_with(s: &str, p: &str) -> (r: bool)
    ensures
        r == ends_with(s@, p@),
{
    let n = s.unicode_len();
    let m = p.unicode_len();
    if m > n {
        return false;
    }
    let base = n - m;
    let mut j: usize = 0;
    while j < m
        invariant
            j <= m <= n,
            n == s@.len(),
            m == p@.len(),
            base == n - m,
            forall|k: int| 0 <= k < j ==> s@[base + k] == p@[k],
        decreases m - j,
    {
        if s.get_char(base + j) != p.get_char(j) {
            proof {
                assert(s@.subrange(n - m, n as int)[j as int] == s@[base + j]);
            }
            return false;
        }
        j = j + 1;
    }
    proof {
        assert(s@.subrange(n - m, n as int) =~= p@);
    }
    true
}

/// Executable test that `p` occurs in `s` at position `i`.
pub fn str_matches_at(s: &str, p: &str, i: usize) -> (r: bool)
    requires
        i + p@.len() <= s@.len(),
    ensures
        r == matches_at(s@, p@, i as int),
{
    let n = s.unicode_len();
    let m = p.unicode_len();
    let mut j: usize = 0;
    while j < m
        invariant
            j <= m,
            m == p@.len(),
            n == s@.len(),
            i + m <= n,
            forall|k: int| 0 <= k < j ==> s@[i + k] == p@[k],
        decreases m - j,
    {
        if s.get_char(i + j) != p.get_char(j) {
            proof {
                assert(s@.subrange(i as int, i + m)[j as int] == s@[i + j]);
            }
            return false;
        }
        j = j + 1;
    }
    proof {
        assert(s@.subrange(i as int, i + m) =~= p@);
    }
    true
}

/// Executable first-occurrence search.
pub fn str_find(s: &str, p: &str) -> (r: Option<usize>)
    ensures
        match r {
            Some(i) => find(s@, p@) == Some(i as int),
            None => find(s@, p@) is None,
        },
{
    let n = s.unicode_len();
    let m = p.unicode_len();
    if m > n {
        return None;
    }
    if m == 0 {
        proof {
            assert(s@.subrange(0, 0) =~= p@);
        }
        return Some(0);
    }
    let mut i: usize = 0;
    while i <= n - m
        invariant
            i <= n - m + 1,
            1 <= m <= n,
            n == s@.len(),
            m == p@.len(),
            find(s@, p@) == find_from(s@, p@, i as int),
        decreases n - i,
    {
        if str_matches_at(s, p, i) {
            return Some(i);
        }
        proof {
            assert(find_from(s@, p@, i as int) == find_from(s@, p@, i as int + 1));
        }
        i = i + 1;
    }
    None
}

/// Executable string equality over characters.
pub fn str_eq(a: &str, b: &str) -> (r: bool)
    ensures
        r == (a@ == b@),
{
    let n = a.unicode_len();
    if n != b.unicode_len() {
        return false;
    }
    let mut j: usize = 0;
    while j < n
        invariant
            j <= n,
            n == a@.len(),
            n == b@.len(),
            forall|k: int| 0 <= k < j ==> a@[k] == b@[k],
        decreases n - j,
    {
        if a.get_char(j) != b.get_char(j) {
            return false;
        }
        j = j + 1;
    }
    proof {
        assert(a@ =~= b@);
    }
    true
}

/// Lexicographic order on character sequences, by code point; the order
/// in which language names are listed.
pub open spec fn lex_lt(a: Seq<char>, b: Seq<char>) -> bool
    decreases a.len(),
{
    if b.len() == 0 {
        false
    } else if a.len() == 0 {
        true
    } else if a[0] != b[0] {
        (a[0] as u32) < (b[0] as u32)
    } else {
        lex_lt(a.drop_first(), b.drop_first())
    }
}

/// Executable lexicographic comparison.
pub fn str_lt(a: &str, b: &str) -> (r: bool)
    ensures
        r == lex_lt(a@, b@),
{
    let n = a.unicode_len();
    let m = b.unicode_len();
    proof {
        assert(a@.skip(0) =~= a@);
        assert(b@.skip(0) =~= b@);
    }
    let mut j: usize = 0;
    while j < n && j < m
        invariant
            j <= n,
            j <= m,
            n == a@.len(),
            m == b@.len(),
            lex_lt(a@, b@) == lex_lt(a@.skip(j as int), b@.skip(j as int)),
        decreases n - j,
    {
        let ca = a.get_char(j);
        let cb = b.get_char(j);
        if ca != cb {
            proof {
                assert(a@.skip(j as int).len() == n - j);
                assert(b@.skip(j as int).len() == m - j);
                assert(a@.skip(j as int)[0] == a@[j as int]);
                assert(b@.skip(j as int)[0] == b@[j as int]);
            }
            return (ca as u32) < (cb as u32);
        }
        proof {
            assert(a@.skip(j as int).drop_first() =~= a@.skip(j as int + 1));
            assert(b@.skip(j as int).drop_first() =~= b@.skip(j as int + 1));
            assert(a@.skip(j as int)[0] == b@.skip(j as int)[0]);
        }
        j = j + 1;
    }
    proof {
        assert(a@.skip(j as int).len() == n - j);
        assert(b@.skip(j as int).len() == m - j);
    }
    n < m
}

/// The order never holds of a sequence and itself.
pub proof fn lemma_lex_irrefl(a: Seq<char>)
    ensures
        !lex_lt(a, a),
    decreases a.len(),
{
    if a.len() > 0 {
        lemma_lex_irrefl(a.drop_first());
    }
}

/// The order is transitive.
pub proof fn lemma_lex_trans(a: Seq<char>, b: Seq<char>, c: Seq<char>)
    requires
        lex_lt(a, b),
        lex_lt(b, c),
    ensures
        lex_lt(a, c),
    decreases a.len() + b.len() + c.len(),
{
    if a.len() == 0 {
    } else {
        if a[0] == b[0] && b[0] == c[0] {
            lemma_lex_trans(a.drop_first(), b.drop_first(), c.drop_first());
        }
    }
}

/// Two distinct sequences are ordered one way or the other.
pub proof fn lemma_lex_connex(a: Seq<char>, b: Seq<char>)
    requires
        a != b,
        !lex_lt(a, b),
    ensures
        lex_lt(b, a),
    decreases a.len(),
{
    if b.len() == 0 {
        if a.len() == 0 {
            assert(a =~= b);
        }
    } else if a.len() == 0 {
    } else if a[0] != b[0] {
        assert(!((a[0] as u32) < (b[0] as u32)));
        if (a[0] as u32) == (b[0] as u32) {
            vstd::utf8::char_is_scalar(a[0]);
            vstd::utf8::char_is_scalar(b[0]);
            vstd::utf8::char_u32_cast(a[0], (a[0] as u32));
            vstd::utf8::char_u32_cast(b[0], (b[0] as u32));
            assert(((a[0] as u32) as char) == a[0]);
            assert(((b[0] as u32) as char) == b[0]);
            assert(a[0] == b[0]);
        }
        assert((b[0] as u32) < (a[0] as u32));
    } else {
        if a.drop_first() == b.drop_first() {
            assert(a.drop_first().len() == a.len() - 1);
            assert(b.drop_first().len() == b.len() - 1);
            assert(a.len() == b.len());
            assert forall|i: int| 0 <= i < a.len() implies a[i] == b[i] by {
                if i > 0 {
                    assert(a.drop_first()[i - 1] == a[i]);
                    assert(b.drop_first()[i - 1] == b[i]);
                }
            }
            assert(a =~= b);
        }
        lemma_lex_connex(a.drop_first(), b.drop_first());
    }
}

/// ASCII lowercase of one character; other characters are unchanged.
pub open spec fn lower_char(c: char) -> char {
    match c {
        'A' => 'a',
        'B' => 'b',
        'C' => 'c',
        'D' => 'd',
        'E' => 'e',
        'F' => 'f',
        'G' => 'g',
        'H' => 'h',
        'I' => 'i',
        'J' => 'j',
        'K' => 'k',
        'L' => 'l',
        'M' => 'm',
        'N' => 'n',
        'O' => 'o',
        'P' => 'p',
        'Q' => 'q',
        'R' => 'r',
        'S' => 's',
        'T' => 't',
        'U' => 'u',
        'V' => 'v',
        'W' => 'w',
        'X' => 'x',
        'Y' => 'y',
        'Z' => 'z',
        _ => c,
    }
}

/// ASCII lowercase of a sequence of characters.
pub open spec fn to_lower(s: Seq<char>) -> Seq<char> {
    s.map_values(|c: char| lower_char(c))
}

/// Executable ASCII lowercase of one character.
pub fn lower_char_exec(c: char) -> (r: char)
    ensures
        r == lower_char(c),
{
    match c {
        'A' => 'a',
        'B' => 'b',
        'C' => 'c',
        'D' => 'd',
        'E' => 'e',
        'F' => 'f',
        'G' => 'g',
        'H' => 'h',
        'I' => 'i',
        'J' => 'j',
        'K' => 'k',
        'L' => 'l',
        'M' => 'm',
        'N' => 'n',
        'O' => 'o',
        'P' => 'p',
        'Q' => 'q',
        'R' => 'r',
        'S' => 's',
        'T' => 't',
        'U' => 'u',
        'V' => 'v',
        'W' => 'w',
        'X' => 'x',
        'Y' => 'y',
        'Z' => 'z',
        _ => c,
    }
}

/// Whether `s`, lowercased letter by letter, equals `t` exactly.
pub fn lower_eq(s: &str, t: &str) -> (r: bool)
    ensures
        r == (to_lower(s@) == t@),
{
    let n = s.unicode_len();
    if n != t.unicode_len() {
        return false;
    }
    let mut j: usize = 0;
    while j < n
        invariant
            j <= n,
            n == s@.len(),
            n == t@.len(),
            forall|k: int| 0 <= k < j ==> lower_char(s@[k]) == t@[k],
        decreases n - j,
    {
        if lower_char_exec(s.get_char(j)) != t.get_char(j) {
            proof {
                assert(to_lower(s@)[j as int] == lower_char(s@[j as int]));
            }
            return false;
        }
        j = j + 1;
    }
    proof {
        assert(to_lower(s@) =~= t@);
    }
    true
}

} // verus!
