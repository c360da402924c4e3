//! Character-level text handling shared by every parser in the crate.
//!
//! Text is processed as sequences of `char`; the spec functions here are the
//! vocabulary the parsers' contracts are written in.

use vstd::prelude::*;
use vstd::string::*;

verus! {

// ---------------------------------------------------------------------------
// Whitespace
// ---------------------------------------------------------------------------

/// Unicode `White_Space`, the set `char::is_whitespace` and `str::trim` use.
pub open spec fn is_ws(c: char) -> bool {
    let n = c as u32;
    ||| 0x09 <= n <= 0x0D
    ||| n == 0x20
    ||| n == 0x85
    ||| n == 0xA0
    ||| n == 0x1680
    ||| 0x2000 <= n <= 0x200A
    ||| n == 0x2028
    ||| n == 0x2029
    ||| n == 0x202F
    ||| n == 0x205F
    ||| n == 0x3000
}

pub fn is_whitespace(c: char) -> (r: bool)
    ensures
        r == is_ws(c),
{
    let n = c as u32;
    (0x09 <= n && n <= 0x0D) || n == 0x20 || n == 0x85 || n == 0xA0 || n == 0x1680 || (0x2000
        <= n && n <= 0x200A) || n == 0x2028 || n == 0x2029 || n == 0x202F || n == 0x205F || n
        == 0x3000
}

/// Number of leading characters of `s` that satisfy `is_ws`.
pub open spec fn ws_prefix_len(s: Seq<char>) -> nat
    decreases s.len(),
{
    if s.len() > 0 && is_ws(s[0]) {
        1 + ws_prefix_len(s.subrange(1, s.len() as int))
    } else {
        0
    }
}

/// Number of trailing characters of `s` that satisfy `is_ws`.
pub open spec fn ws_suffix_len(s: Seq<char>) -> nat
    decreases s.len(),
{
    if s.len() > 0 && is_ws(s.last()) {
        1 + ws_suffix_len(s.drop_last())
    } else {
        0
    }
}

pub open spec fn trim_start(s: Seq<char>) -> Seq<char> {
    s.subrange(ws_prefix_len(s) as int, s.len() as int)
}

pub open spec fn trim_end(s: Seq<char>) -> Seq<char> {
    s.subrange(0, s.len() - ws_suffix_len(s))
}

/// `str::trim`: leading and trailing Unicode whitespace removed.
pub open spec fn trim(s: Seq<char>) -> Seq<char> {
    trim_end(trim_start(s))
}

pub proof fn lemma_ws_prefix_len_bound(s: Seq<char>)
    ensures
        ws_prefix_len(s) <= s.len(),
        forall|j: int| 0 <= j < ws_prefix_len(s) ==> is_ws(#[trigger] s[j]),
        ws_prefix_len(s) < s.len() ==> !is_ws(s[ws_prefix_len(s) as int]),
    decreases s.len(),
{
    if s.len() > 0 && is_ws(s[0]) {
        let t = s.subrange(1, s.len() as int);
        lemma_ws_prefix_len_bound(t);
        assert forall|j: int| 0 <= j < ws_prefix_len(s) implies is_ws(#[trigger] s[j]) by {
            if j > 0 {
                assert(s[j] == t[j - 1]);
            }
        }
        if ws_prefix_len(s) < s.len() {
            assert(s[ws_prefix_len(s) as int] == t[ws_prefix_len(t) as int]);
        }
    }
}

pub proof fn lemma_ws_suffix_len_bound(s: Seq<char>)
    ensures
        ws_suffix_len(s) <= s.len(),
        forall|j: int| s.len() - ws_suffix_len(s) <= j < s.len() ==> is_ws(#[trigger] s[j]),
        ws_suffix_len(s) < s.len() ==> !is_ws(s[s.len() - ws_suffix_len(s) - 1]),
    decreases s.len(),
{
    if s.len() > 0 && is_ws(s.last()) {
        let t = s.drop_last();
        lemma_ws_suffix_len_bound(t);
        assert forall|j: int| s.len() - ws_suffix_len(s) <= j < s.len() implies is_ws(
            #[trigger] s[j],
        ) by {
            if j < s.len() - 1 {
                assert(s[j] == t[j]);
            }
        }
        if ws_suffix_len(s) < s.len() {
            assert(s[s.len() - ws_suffix_len(s) - 1] == t[t.len() - ws_suffix_len(t) - 1]);
        }
    }
}

/// Characterisation of `ws_prefix_len` by the scan a loop performs.
proof fn lemma_ws_prefix_step(s: Seq<char>, i: int)
    requires
        0 <= i < s.len(),
        is_ws(s[i]),
        ws_prefix_len(s) == i + ws_prefix_len(s.subrange(i, s.len() as int)),
    ensures
        ws_prefix_len(s) == (i + 1) + ws_prefix_len(s.subrange(i + 1, s.len() as int)),
{
    let t = s.subrange(i, s.len() as int);
    assert(t.subrange(1, t.len() as int) =~= s.subrange(i + 1, s.len() as int));
}

pub proof fn lemma_ws_suffix_step(s: Seq<char>, j: int)
    requires
        0 < j <= s.len(),
        is_ws(s[j - 1]),
        ws_suffix_len(s) == (s.len() - j) + ws_suffix_len(s.subrange(0, j)),
    ensures
        ws_suffix_len(s) == (s.len() - (j - 1)) + ws_suffix_len(s.subrange(0, j - 1)),
{
    let t = s.subrange(0, j);
    assert(t.drop_last() =~= s.subrange(0, j - 1));
}

/// Start and end of `trim(v)` inside `v`.
pub fn trim_bounds(v: &[char]) -> (r: (usize, usize))
    ensures
        r.0 <= r.1 <= v@.len(),
        v@.subrange(r.0 as int, r.1 as int) == trim(v@),
{
    let n = v.len();
    let mut i: usize = 0;
    proof {
        assert(v@.subrange(0, n as int) =~= v@);
    }
    while i < n && is_whitespace(v[i])
        invariant
            0 <= i <= n,
            n == v@.len(),
            ws_prefix_len(v@) == i + ws_prefix_len(v@.subrange(i as int, n as int)),
        decreases n - i,
    {
        proof {
            lemma_ws_prefix_step(v@, i as int);
        }
        i = i + 1;
    }
    proof {
        let t = v@.subrange(i as int, n as int);
        if i < n {
            assert(t[0] == v@[i as int]);
        }
        assert(ws_prefix_len(t) == 0);
    }
    let ghost st = trim_start(v@);
    assert(st =~= v@.subrange(i as int, n as int));
    let mut j: usize = n;
    proof {
        assert(st.subrange(0, st.len() as int) =~= st);
    }
    while j > i && is_whitespace(v[j - 1])
        invariant
            i <= j <= n,
            n == v@.len(),
            st == v@.subrange(i as int, n as int),
            ws_suffix_len(st) == (n - j) + ws_suffix_len(st.subrange(0, j - i)),
        decreases j - i,
    {
        proof {
            assert(st[j - i - 1] == v@[j - 1]);
            lemma_ws_suffix_step(st, (j - i) as int);
        }
        j = j - 1;
    }
    proof {
        let u = st.subrange(0, j - i);
        if j > i {
            assert(u.last() == v@[j - 1]);
        }
        assert(ws_suffix_len(u) == 0);
        assert(trim(v@) =~= v@.subrange(i as int, j as int));
    }
    (i, j)
}

/// `c` is one of the two characters `a`, `b`.
pub open spec fn one_of(c: char, a: char, b: char) -> bool {
    c == a || c == b
}

pub open spec fn pair_prefix_len(s: Seq<char>, a: char, b: char) -> nat
    decreases s.len(),
{
    if s.len() > 0 && one_of(s[0], a, b) {
        1 + pair_prefix_len(s.subrange(1, s.len() as int), a, b)
    } else {
        0
    }
}

pub open spec fn pair_suffix_len(s: Seq<char>, a: char, b: char) -> nat
    decreases s.len(),
{
    if s.len() > 0 && one_of(s.last(), a, b) {
        1 + pair_suffix_len(s.drop_last(), a, b)
    } else {
        0
    }
}

/// `str::trim_matches` with the pattern "is `a` or `b`".
pub open spec fn strip_both(s: Seq<char>, a: char, b: char) -> Seq<char> {
    let t = s.subrange(pair_prefix_len(s, a, b) as int, s.len() as int);
    t.subrange(0, t.len() - pair_suffix_len(t, a, b))
}

pub proof fn lemma_pair_prefix_len_bound(s: Seq<char>, a: char, b: char)
    ensures
        pair_prefix_len(s, a, b) <= s.len(),
    decreases s.len(),
{
    if s.len() > 0 && one_of(s[0], a, b) {
        lemma_pair_prefix_len_bound(s.subrange(1, s.len() as int), a, b);
    }
}

pub proof fn lemma_pair_suffix_len_bound(s: Seq<char>, a: char, b: char)
    ensures
        pair_suffix_len(s, a, b) <= s.len(),
    decreases s.len(),
{
    if s.len() > 0 && one_of(s.last(), a, b) {
        lemma_pair_suffix_len_bound(s.drop_last(), a, b);
    }
}

pub fn strip_both_vec(v: &[char], a: char, b: char) -> (r: Vec<char>)
    ensures
        r@ == strip_both(v@, a, b),
{
    let n = v.len();
    let mut i: usize = 0;
    proof {
        assert(v@.subrange(0, n as int) =~= v@);
    }
    while i < n && (v[i] == a || v[i] == b)
        invariant
            0 <= i <= n,
            n == v@.len(),
            pair_prefix_len(v@, a, b) == i + pair_prefix_len(v@.subrange(i as int, n as int), a, b),
        decreases n - i,
    {
        proof {
            let t = v@.subrange(i as int, n as int);
            assert(t.subrange(1, t.len() as int) =~= v@.subrange(i + 1, n as int));
        }
        i = i + 1;
    }
    proof {
        let t = v@.subrange(i as int, n as int);
        if i < n {
            assert(t[0] == v@[i as int]);
        }
        assert(pair_prefix_len(t, a, b) == 0);
    }
    let ghost st = v@.subrange(pair_prefix_len(v@, a, b) as int, v@.len() as int);
    assert(st =~= v@.subrange(i as int, n as int));
    let mut j: usize = n;
    proof {
        assert(st.subrange(0, st.len() as int) =~= st);
    }
    while j > i && (v[j - 1] == a || v[j - 1] == b)
        invariant
            i <= j <= n,
            n == v@.len(),
            st == v@.subrange(i as int, n as int),
            pair_suffix_len(st, a, b) == (n - j) + pair_suffix_len(st.subrange(0, j - i), a, b),
        decreases j - i,
    {
        proof {
            assert(st[j - i - 1] == v@[j - 1]);
            let t = st.subrange(0, j - i);
            assert(t.drop_last() =~= st.subrange(0, j - i - 1));
        }
        j = j - 1;
    }
    proof {
        let u = st.subrange(0, j - i);
        if j > i {
            assert(u.last() == v@[j - 1]);
        }
        assert(pair_suffix_len(u, a, b) == 0);
        assert(strip_both(v@, a, b) =~= v@.subrange(i as int, j as int));
    }
    sub_vec(v, i, j)
}

// ---------------------------------------------------------------------------
// Conversions between `str`, `String` and character vectors
// ---------------------------------------------------------------------------

/// `String::push`: appends one character.
#[verifier::external_body]
fn push_char(s: &mut String, c: char)
    ensures
        final(s)@ == old(s)@.push(c),
{
    s.push(c);
}

pub fn chars_of(s: &str) -> (v: Vec<char>)
    ensures
        v@ == s@,
{
    let n = s.unicode_len();
    let mut v: Vec<char> = Vec::new();
    let mut i: usize = 0;
    while i < n
        invariant
            n == s@.len(),
            i <= n,
            v@ == s@.subrange(0, i as int),
        decreases n - i,
    {
        let c = s.get_char(i);
        v.push(c);
        i = i + 1;
        proof {
            assert(v@ =~= s@.subrange(0, i as int));
        }
    }
    proof {
        assert(s@.subrange(0, n as int) =~= s@);
    }
    v
}

pub fn string_of(v: &[char]) -> (s: String)
    ensures
        s@ == v@,
{
    let mut s = String::new();
    let mut i: usize = 0;
    while i < v.len()
        invariant
            i <= v@.len(),
            s@ == v@.subrange(0, i as int),
        decreases v@.len() - i,
    {
        push_char(&mut s, v[i]);
        i = i + 1;
        proof {
            assert(s@ =~= v@.subrange(0, i as int));
        }
    }
    proof {
        assert(v@.subrange(0, v@.len() as int) =~= v@);
    }
    s
}

/// Copy of `v[a..b]`.
pub fn sub_vec(v: &[char], a: usize, b: usize) -> (r: Vec<char>)
    requires
        a <= b <= v@.len(),
    ensures
        r@ == v@.subrange(a as int, b as int),
{
    let mut r: Vec<char> = Vec::new();
    let mut i: usize = a;
    while i < b
        invariant
            a <= i <= b,
            b <= v@.len(),
            r@ == v@.subrange(a as int, i as int),
        decreases b - i,
    {
        r.push(v[i]);
        i = i + 1;
        proof {
            assert(r@ =~= v@.subrange(a as int, i as int));
        }
    }
    r
}

pub fn sub_string(v: &[char], a: usize, b: usize) -> (r: String)
    requires
        a <= b <= v@.len(),
    ensures
        r@ == v@.subrange(a as int, b as int),
{
    let w = sub_vec(v, a, b);
    string_of(w.as_slice())
}

pub fn trimmed(v: &[char]) -> (r: Vec<char>)
    ensures
        r@ == trim(v@),
{
    let (a, b) = trim_bounds(v);
    sub_vec(v, a, b)
}

pub fn trimmed_string(v: &[char]) -> (r: String)
    ensures
        r@ == trim(v@),
{
    let (a, b) = trim_bounds(v);
    sub_string(v, a, b)
}

pub fn trim_str(s: &str) -> (r: String)
    ensures
        r@ == trim(s@),
{
    let v = chars_of(s);
    trimmed_string(v.as_slice())
}

pub fn concat(a: &str, b: &str) -> (r: String)
    ensures
        r@ == a@ + b@,
{
    let mut r = String::from_str(a);
    r.append(b);
    r
}

pub fn concat3(a: &str, b: &str, c: &str) -> (r: String)
    ensures
        r@ == a@ + b@ + c@,
{
    let mut r = String::from_str(a);
    r.append(b);
    r.append(c);
    r
}

// ---------------------------------------------------------------------------
// Comparisons and searches
// ---------------------------------------------------------------------------

pub fn eq_str(v: &[char], lit: &str) -> (r: bool)
    ensures
        r == (v@ == lit@),
{
    let n = lit.unicode_len();
    if n != v.len() {
        return false;
    }
    let mut i: usize = 0;
    while i < n
        invariant
            n == lit@.len(),
            n == v@.len(),
            i <= n,
            forall|j: int| 0 <= j < i ==> v@[j] == lit@[j],
        decreases n - i,
    {
        if v[i] != lit.get_char(i) {
            return false;
        }
        i = i + 1;
    }
    proof {
        assert(v@ =~= lit@);
    }
    true
}

pub fn eq_chars(a: &[char], b: &[char]) -> (r: bool)
    ensures
        r == (a@ == b@),
{
    if a.len() != b.len() {
        return false;
    }
    let mut i: usize = 0;
    while i < a.len()
        invariant
            a@.len() == b@.len(),
            i <= a@.len(),
            forall|j: int| 0 <= j < i ==> a@[j] == b@[j],
        decreases a@.len() - i,
    {
        if a[i] != b[i] {
            return false;
        }
        i = i + 1;
    }
    proof {
        assert(a@ =~= b@);
    }
    true
}

pub open spec fn starts_with(s: Seq<char>, p: Seq<char>) -> bool {
    p.len() <= s.len() && s.subrange(0, p.len() as int) == p
}

pub open spec fn ends_with(s: Seq<char>, p: Seq<char>) -> bool {
    p.len() <= s.len() && s.subrange(s.len() - p.len(), s.len() as int) == p
}

/// `needle` occurs in `hay` starting at index `i`.
pub open spec fn occurs_at(hay: Seq<char>, needle: Seq<char>, i: int) -> bool {
    0 <= i && i + needle.len() <= hay.len() && hay.subrange(i, i + needle.len()) == needle
}

/// `str::contains` with a string pattern.
pub open spec fn contains(hay: Seq<char>, needle: Seq<char>) -> bool {
    exists|i: int| occurs_at(hay, needle, i)
}

/// Whether `lit` matches `v` at position `at`.
pub fn matches_at(v: &[char], at: usize, lit: &[char]) -> (r: bool)
    ensures
        r == occurs_at(v@, lit@, at as int),
{
    let vl = v.len();
    if at > vl || lit.len() > vl - at {
        return false;
    }
    let mut i: usize = 0;
    while i < lit.len()
        invariant
            vl == v@.len(),
            at + lit@.len() <= v@.len(),
            i <= lit@.len(),
            forall|j: int| 0 <= j < i ==> v@[at + j] == lit@[j],
        decreases lit@.len() - i,
    {
        if v[at + i] != lit[i] {
            proof {
                assert(v@.subrange(at as int, at + lit@.len())[i as int] != lit@[i as int]);
            }
            return false;
        }
        i = i + 1;
    }
    proof {
        assert(v@.subrange(at as int, at + lit@.len()) =~= lit@);
    }
    true
}

pub fn starts_with_chars(v: &[char], p: &[char]) -> (r: bool)
    ensures
        r == starts_with(v@, p@),
{
    matches_at(v, 0, p)
}

pub fn ends_with_chars(v: &[char], p: &[char]) -> (r: bool)
    ensures
        r == ends_with(v@, p@),
{
    if p.len() > v.len() {
        return false;
    }
    matches_at(v, v.len() - p.len(), p)
}

pub fn starts_with_str(v: &[char], p: &str) -> (r: bool)
    ensures
        r == starts_with(v@, p@),
{
    let pv = chars_of(p);
    starts_with_chars(v, pv.as_slice())
}

pub fn ends_with_str(v: &[char], p: &str) -> (r: bool)
    ensures
        r == ends_with(v@, p@),
{
    let pv = chars_of(p);
    ends_with_chars(v, pv.as_slice())
}

/// First index at which `needle` occurs in `hay`, searching from `from`.
pub fn find_from(hay: &[char], needle: &[char], from: usize) -> (r: Option<usize>)
    ensures
        match r {
            Some(i) => from <= i && occurs_at(hay@, needle@, i as int) && forall|k: int|
                from <= k < i ==> !occurs_at(hay@, needle@, k),
            None => forall|k: int| from <= k ==> !occurs_at(hay@, needle@, k),
        },
{
    if needle.len() > hay.len() {
        return None;
    }
    let last = hay.len() - needle.len();
    if from > last {
        return None;
    }
    let mut i: usize = from;
    while i < last
        invariant
            last + needle@.len() == hay@.len(),
            from <= i <= last,
            forall|k: int| from <= k < i ==> !occurs_at(hay@, needle@, k),
        decreases last - i,
    {
        if matches_at(hay, i, needle) {
            return Some(i);
        }
        i = i + 1;
    }
    if matches_at(hay, last, needle) {
        return Some(last);
    }
    None
}

pub fn contains_chars(hay: &[char], needle: &[char]) -> (r: bool)
    ensures
        r == contains(hay@, needle@),
{
    match find_from(hay, needle, 0) {
        Some(i) => true,
        None => {
            proof {
                assert forall|k: int| !occurs_at(hay@, needle@, k) by {
                    if k >= 0 {
                    }
                }
            }
            false
        },
    }
}

pub fn contains_str(hay: &[char], needle: &str) -> (r: bool)
    ensures
        r == contains(hay@, needle@),
{
    let nv = chars_of(needle);
    contains_chars(hay, nv.as_slice())
}

/// Index of the first occurrence of `c`.
pub open spec fn first_index_of(s: Seq<char>, c: char) -> Option<int> {
    if exists|i: int| 0 <= i < s.len() && s[i] == c {
        Some(choose|i: int| 0 <= i < s.len() && s[i] == c && forall|k: int| 0 <= k < i ==> s[k] != c)
    } else {
        None
    }
}

pub fn find_char(v: &[char], c: char) -> (r: Option<usize>)
    ensures
        r matches Some(i) ==> i < v@.len() && v@[i as int] == c && forall|k: int|
            0 <= k < i ==> v@[k] != c,
        r is None ==> forall|k: int| 0 <= k < v@.len() ==> v@[k] != c,
        r matches Some(i) ==> first_index_of(v@, c) == Some(i as int),
        r is None ==> first_index_of(v@, c) is None,
{
    let mut i: usize = 0;
    while i < v.len()
        invariant
            i <= v@.len(),
            forall|k: int| 0 <= k < i ==> v@[k] != c,
        decreases v@.len() - i,
    {
        if v[i] == c {
            proof {
                let ghost w = choose|w: int|
                    0 <= w < v@.len() && v@[w] == c && forall|k: int| 0 <= k < w ==> v@[k] != c;
                assert(0 <= i < v@.len() && v@[i as int] == c && forall|k: int|
                    0 <= k < i ==> v@[k] != c);
                if w < i {
                    assert(v@[w] != c);
                }
                if w > i {
                    assert(v@[i as int] != c);
                }
            }
            return Some(i);
        }
        i = i + 1;
    }
    None
}

// ---------------------------------------------------------------------------
// Splitting
// ---------------------------------------------------------------------------

/// `str::split(sep)` with a single-character separator.
pub open spec fn split_on(s: Seq<char>, sep: char) -> Seq<Seq<char>>
    decreases s.len(),
{
    if s.len() == 0 {
        seq![Seq::<char>::empty()]
    } else {
        let pre = split_on(s.drop_last(), sep);
        if s.last() == sep {
            pre.push(Seq::<char>::empty())
        } else {
            pre.update(pre.len() - 1, pre.last().push(s.last()))
        }
    }
}

pub proof fn lemma_split_on_nonempty(s: Seq<char>, sep: char)
    ensures
        split_on(s, sep).len() >= 1,
    decreases s.len(),
{
    if s.len() > 0 {
        lemma_split_on_nonempty(s.drop_last(), sep);
    }
}

pub fn split_chars(v: &[char], sep: char) -> (r: Vec<Vec<char>>)
    ensures
        r.deep_view() == split_on(v@, sep),
{
    let mut done: Vec<Vec<char>> = Vec::new();
    let mut cur: Vec<char> = Vec::new();
    let mut i: usize = 0;
    proof {
        assert(v@.subrange(0, 0) =~= Seq::<char>::empty());
        assert(done.deep_view().push(cur@) =~= split_on(v@.subrange(0, 0), sep));
    }
    while i < v.len()
        invariant
            i <= v@.len(),
            done.deep_view().push(cur@) == split_on(v@.subrange(0, i as int), sep),
        decreases v@.len() - i,
    {
        let ghost before = v@.subrange(0, i as int);
        let ghost old_done = done.deep_view();
        let ghost old_cur = cur@;
        let c = v[i];
        proof {
            lemma_chars_deep_view(&cur);
        }
        if c == sep {
            done.push(cur);
            cur = Vec::new();
        } else {
            cur.push(c);
        }
        i = i + 1;
        proof {
            let after = v@.subrange(0, i as int);
            assert(after.drop_last() =~= before);
            assert(after.last() == c);
            if c == sep {
                assert(done.deep_view() =~= old_done.push(old_cur));
                assert(done.deep_view().push(cur@) =~= old_done.push(old_cur).push(
                    Seq::<char>::empty(),
                ));
            } else {
                assert(done.deep_view() =~= old_done);
                assert(done.deep_view().push(cur@) =~= old_done.push(old_cur).update(
                    old_done.len() as int,
                    old_cur.push(c),
                ));
            }
        }
    }
    proof {
        assert(v@.subrange(0, v@.len() as int) =~= v@);
        lemma_chars_deep_view(&cur);
    }
    let ghost old_done = done.deep_view();
    let ghost old_cur = cur@;
    done.push(cur);
    proof {
        assert(done.deep_view() =~= old_done.push(old_cur));
    }
    done
}

pub proof fn lemma_chars_deep_view(v: &Vec<char>)
    ensures
        v.deep_view() == v@,
{
    assert(v.deep_view() =~= v@);
}

/// One `\r` removed from the end, if present.
pub open spec fn strip_cr(s: Seq<char>) -> Seq<char> {
    if s.len() > 0 && s.last() == '\r' {
        s.drop_last()
    } else {
        s
    }
}

/// `str::lines`: pieces between `\n`, a final line ending being optional, and a
/// `\r` dropped from every line that a `\n` ended.
pub open spec fn lines(s: Seq<char>) -> Seq<Seq<char>> {
    let pieces = split_on(s, '\n');
    if s.len() == 0 {
        Seq::empty()
    } else if s.last() == '\n' {
        pieces.drop_last().map_values(|p: Seq<char>| strip_cr(p))
    } else {
        Seq::new(
            pieces.len(),
            |i: int|
                if i < pieces.len() - 1 {
                    strip_cr(pieces[i])
                } else {
                    pieces[i]
                },
        )
    }
}

pub fn strip_cr_vec(p: Vec<char>) -> (r: Vec<char>)
    ensures
        r@ == strip_cr(p@),
{
    let mut p = p;
    let ghost orig = p@;
    let n = p.len();
    if n > 0 && p[n - 1] == '\r' {
        p.pop();
        proof {
            assert(p@ =~= orig.drop_last());
        }
    }
    p
}

pub fn lines_of(v: &[char]) -> (r: Vec<Vec<char>>)
    ensures
        r.deep_view() == lines(v@),
{
    if v.len() == 0 {
        let r: Vec<Vec<char>> = Vec::new();
        proof {
            assert(r.deep_view() =~= lines(v@));
        }
        return r;
    }
    let pieces = split_chars(v, '\n');
    let ghost ps = split_on(v@, '\n');
    proof {
        lemma_split_on_nonempty(v@, '\n');
    }
    let ends_nl = v[v.len() - 1] == '\n';
    let count = if ends_nl {
        pieces.len() - 1
    } else {
        pieces.len()
    };
    let mut out: Vec<Vec<char>> = Vec::new();
    let mut i: usize = 0;
    while i < count
        invariant
            pieces.deep_view() == ps,
            ps.len() >= 1,
            count <= ps.len(),
            ends_nl ==> count == ps.len() - 1,
            !ends_nl ==> count == ps.len(),
            i <= count,
            out.deep_view().len() == i,
            forall|k: int|
                0 <= k < i ==> #[trigger] out.deep_view()[k] == if ends_nl || k < ps.len() - 1 {
                    strip_cr(ps[k])
                } else {
                    ps[k]
                },
        decreases count - i,
    {
        let piece = clone_chars(&pieces[i]);
        proof {
            assert(piece@ == ps[i as int]);
        }
        let ghost old_out = out.deep_view();
        if ends_nl || i < pieces.len() - 1 {
            let s = strip_cr_vec(piece);
            out.push(s);
        } else {
            out.push(piece);
        }
        proof {
            assert(out.deep_view() =~= old_out.push(out.deep_view()[i as int]));
        }
        i = i + 1;
    }
    proof {
        assert(out.deep_view() =~= lines(v@));
    }
    out
}

pub fn clone_chars(v: &Vec<char>) -> (r: Vec<char>)
    ensures
        r@ == v@,
{
    sub_vec(v.as_slice(), 0, v.len())
}

/// `[T]::join(sep)` on strings.
pub open spec fn join(parts: Seq<Seq<char>>, sep: Seq<char>) -> Seq<char>
    decreases parts.len(),
{
    if parts.len() == 0 {
        Seq::empty()
    } else if parts.len() == 1 {
        parts[0]
    } else {
        join(parts.drop_last(), sep) + sep + parts.last()
    }
}

pub fn join_strings(parts: &Vec<String>, sep: &str) -> (r: String)
    ensures
        r@ == join(parts.deep_view(), sep@),
{
    let mut r = String::new();
    let mut i: usize = 0;
    while i < parts.len()
        invariant
            i <= parts@.len(),
            r@ == join(parts.deep_view().subrange(0, i as int), sep@),
        decreases parts@.len() - i,
    {
        let ghost prev = parts.deep_view().subrange(0, i as int);
        if i > 0 {
            r.append(sep);
        }
        r.append(parts[i].as_str());
        i = i + 1;
        proof {
            let cur = parts.deep_view().subrange(0, i as int);
            assert(cur.drop_last() =~= prev);
            assert(cur.last() == parts[i - 1]@);
            if i == 1 {
                assert(r@ =~= join(cur, sep@));
            }
        }
    }
    proof {
        assert(parts.deep_view().subrange(0, parts@.len() as int) =~= parts.deep_view());
    }
    r
}

// ---------------------------------------------------------------------------
// Decimal numbers
// ---------------------------------------------------------------------------

pub open spec fn digit_char(d: nat) -> char {
    if d == 0 {
        '0'
    } else if d == 1 {
        '1'
    } else if d == 2 {
        '2'
    } else if d == 3 {
        '3'
    } else if d == 4 {
        '4'
    } else if d == 5 {
        '5'
    } else if d == 6 {
        '6'
    } else if d == 7 {
        '7'
    } else if d == 8 {
        '8'
    } else {
        '9'
    }
}

/// Decimal representation of `n`, as `Display` prints an unsigned integer.
pub open spec fn decimal(n: nat) -> Seq<char>
    decreases n,
{
    if n < 10 {
        seq![digit_char(n)]
    } else {
        decimal(n / 10).push(digit_char(n % 10))
    }
}

fn digit_of(d: u64) -> (c: char)
    requires
        d < 10,
    ensures
        c == digit_char(d as nat),
{
    if d == 0 {
        '0'
    } else if d == 1 {
        '1'
    } else if d == 2 {
        '2'
    } else if d == 3 {
        '3'
    } else if d == 4 {
        '4'
    } else if d == 5 {
        '5'
    } else if d == 6 {
        '6'
    } else if d == 7 {
        '7'
    } else if d == 8 {
        '8'
    } else {
        '9'
    }
}

pub fn decimal_chars(n: u64) -> (r: Vec<char>)
    ensures
        r@ == decimal(n as nat),
    decreases n,
{
    if n < 10 {
        let mut v = Vec::new();
        v.push(digit_of(n));
        proof {
            assert(v@ =~= decimal(n as nat));
        }
        v
    } else {
        let mut v = decimal_chars(n / 10);
        v.push(digit_of(n % 10));
        v
    }
}

pub fn decimal_string(n: u64) -> (r: String)
    ensures
        r@ == decimal(n as nat),
{
    let v = decimal_chars(n);
    string_of(v.as_slice())
}

// ---------------------------------------------------------------------------
// Case mapping (std)
// ---------------------------------------------------------------------------

/// Every character is ASCII.
pub open spec fn is_ascii_text(s: Seq<char>) -> bool {
    forall|i: int| 0 <= i < s.len() ==> (#[trigger] s[i] as u32) < 128
}

pub open spec fn ascii_lower_char(c: char) -> char {
    if 65 <= (c as u32) && (c as u32) <= 90 {
        ((c as u32) + 32) as char
    } else {
        c
    }
}

pub open spec fn ascii_upper_char(c: char) -> char {
    if 97 <= (c as u32) && (c as u32) <= 122 {
        ((c as u32) - 32) as char
    } else {
        c
    }
}

/// `A`-`Z` mapped to `a`-`z`, every other character kept.
pub open spec fn ascii_lower(s: Seq<char>) -> Seq<char> {
    Seq::new(s.len(), |i: int| ascii_lower_char(s[i]))
}

/// `a`-`z` mapped to `A`-`Z`, every other character kept.
pub open spec fn ascii_upper(s: Seq<char>) -> Seq<char> {
    Seq::new(s.len(), |i: int| ascii_upper_char(s[i]))
}

/// What `str::to_lowercase` returns for a text that is not all ASCII
/// (Unicode full case mapping).
pub uninterp spec fn unicode_lower(s: Seq<char>) -> Seq<char>;

/// What `str::to_uppercase` returns for a text that is not all ASCII
/// (Unicode full case mapping).
pub uninterp spec fn unicode_upper(s: Seq<char>) -> Seq<char>;

/// Lowercasing as `str::to_lowercase` does it: on ASCII text the ASCII
/// mapping, otherwise the Unicode mapping, which is only named.
pub open spec fn spec_to_lowercase(s: Seq<char>) -> Seq<char> {
    if is_ascii_text(s) {
        ascii_lower(s)
    } else {
        unicode_lower(s)
    }
}

/// Uppercasing as `str::to_uppercase` does it: on ASCII text the ASCII
/// mapping, otherwise the Unicode mapping, which is only named.
pub open spec fn spec_to_uppercase(s: Seq<char>) -> Seq<char> {
    if is_ascii_text(s) {
        ascii_upper(s)
    } else {
        unicode_upper(s)
    }
}

/// A trimmed text that is not empty starts and ends with a character that
/// is not whitespace.
pub proof fn lemma_trim_ends(s: Seq<char>)
    ensures
        trim(s).len() > 0 ==> !is_ws(trim(s)[0]) && !is_ws(trim(s).last()),
        forall|j: int| 0 <= j < trim(s).len() ==> exists|i: int| 0 <= i < s.len() && #[trigger] trim(s)[j] == s[i],
{
    let u = trim_start(s);
    lemma_ws_prefix_len_bound(s);
    lemma_ws_suffix_len_bound(u);
    let p = ws_prefix_len(s) as int;
    assert forall|j: int| 0 <= j < trim(s).len() implies exists|i: int| 0 <= i < s.len() && #[trigger] trim(s)[j] == s[i] by {
        assert(trim(s)[j] == u[j]);
        assert(u[j] == s[p + j]);
    }
    if trim(s).len() > 0 {
        assert(trim(s)[0] == u[0]);
        assert(u[0] == s[p]);
        assert(trim(s).last() == u[u.len() - ws_suffix_len(u) - 1]);
    }
}

/// Text with no whitespace at either end is its own trim.
pub proof fn lemma_trim_of_trimmed(t: Seq<char>)
    requires
        t.len() > 0 ==> !is_ws(t[0]) && !is_ws(t.last()),
    ensures
        trim(t) == t,
{
    if t.len() > 0 {
        assert(ws_prefix_len(t) == 0);
        assert(trim_start(t) =~= t);
        assert(ws_suffix_len(t) == 0);
    } else {
        assert(trim_start(t) =~= t);
    }
    assert(trim(t) =~= t);
}

/// ASCII lowercasing keeps text ASCII, keeps whitespace where it is, and
/// lowercasing again changes nothing.
pub proof fn lemma_ascii_lower_stable(t: Seq<char>)
    requires
        is_ascii_text(t),
    ensures
        is_ascii_text(ascii_lower(t)),
        ascii_lower(ascii_lower(t)) == ascii_lower(t),
        forall|i: int| 0 <= i < t.len() ==> (is_ws(#[trigger] ascii_lower(t)[i]) <==> is_ws(t[i])),
{
    let l = ascii_lower(t);
    assert forall|i: int| 0 <= i < l.len() implies (#[trigger] l[i] as u32) < 128 && ascii_lower_char(l[i]) == l[i] && (is_ws(l[i]) <==> is_ws(t[i])) by {
        let c = t[i];
        assert((c as u32) < 128);
        if 65 <= (c as u32) && (c as u32) <= 90 {
            assert(l[i] == ((c as u32) + 32) as char);
            assert((l[i] as u32) == (c as u32) + 32);
        } else {
            assert(l[i] == c);
        }
    }
    assert(ascii_lower(l) =~= l);
}

fn ascii_lower_char_exec(c: char) -> (r: char)
    ensures
        r == ascii_lower_char(c),
{
    let n = c as u32;
    if 65 <= n && n <= 90 {
        let b = (n + 32) as u8;
        b as char
    } else {
        c
    }
}

/// ASCII lowercasing (`str::to_ascii_lowercase`): `A`-`Z` become `a`-`z`,
/// every other character is kept.
pub fn ascii_lowercase(s: &str) -> (r: String)
    ensures
        r@ == ascii_lower(s@),
{
    let v = chars_of(s);
    let mut out: Vec<char> = Vec::new();
    let mut i: usize = 0;
    while i < v.len()
        invariant
            v@ == s@,
            i <= v@.len(),
            out@ == ascii_lower(v@).subrange(0, i as int),
        decreases v@.len() - i,
    {
        let c = ascii_lower_char_exec(v[i]);
        out.push(c);
        i = i + 1;
        proof {
            assert(out@ =~= ascii_lower(v@).subrange(0, i as int));
        }
    }
    proof {
        assert(ascii_lower(v@).subrange(0, v@.len() as int) =~= ascii_lower(v@));
    }
    string_of(out.as_slice())
}

/// `str::to_lowercase`. The contract claims that ASCII text comes back with
/// `A`-`Z` turned into `a`-`z` and every other character kept (the Unicode
/// lowercase mapping of ASCII characters, which `str::to_ascii_lowercase`'s
/// documentation points to); for other text it only names the result, a
/// function of the argument alone.
#[verifier::external_body]
pub(crate) fn to_lowercase(s: &str) -> (r: String)
    ensures
        is_ascii_text(s@) ==> r@ == ascii_lower(s@),
        !is_ascii_text(s@) ==> r@ == unicode_lower(s@),
{
    s.to_lowercase()
}

/// `str::to_uppercase`. The contract claims that ASCII text comes back with
/// `a`-`z` turned into `A`-`Z` and every other character kept; for other
/// text it only names the result, a function of the argument alone.
#[verifier::external_body]
pub(crate) fn to_uppercase(s: &str) -> (r: String)
    ensures
        is_ascii_text(s@) ==> r@ == ascii_upper(s@),
        !is_ascii_text(s@) ==> r@ == unicode_upper(s@),
{
    s.to_uppercase()
}

pub fn lowercase_chars(v: &[char]) -> (r: Vec<char>)
    ensures
        r@ == spec_to_lowercase(v@),
{
    let s = string_of(v);
    let l = to_lowercase(s.as_str());
    chars_of(l.as_str())
}

pub fn uppercase_chars(v: &[char]) -> (r: Vec<char>)
    ensures
        r@ == spec_to_uppercase(v@),
{
    let s = string_of(v);
    let u = to_uppercase(s.as_str());
    chars_of(u.as_str())
}


/// Splitting a text made of two parts joined by the separator splits each part.
pub proof fn lemma_split_on_join(x: Seq<char>, y: Seq<char>, sep: char)
    ensures
        split_on(x + seq![sep] + y, sep) == split_on(x, sep) + split_on(y, sep),
    decreases y.len(),
{
    let xs = x + seq![sep];
    if y.len() == 0 {
        assert(xs + y =~= xs);
        assert(xs.drop_last() =~= x);
        assert(split_on(xs, sep) =~= split_on(x, sep) + split_on(y, sep));
    } else {
        let yd = y.drop_last();
        lemma_split_on_join(x, yd, sep);
        lemma_split_on_nonempty(yd, sep);
        assert((xs + y).drop_last() =~= xs + yd);
        assert((xs + y).last() == y.last());
        let pre = split_on(xs + yd, sep);
        if y.last() == sep {
            assert(split_on(xs + y, sep) =~= split_on(x, sep) + split_on(y, sep));
        } else {
            assert(split_on(xs + y, sep) =~= split_on(x, sep) + split_on(y, sep));
        }
    }
}

/// A text without the separator is its own single part.
pub proof fn lemma_split_on_none(y: Seq<char>, sep: char)
    requires
        forall|i: int| 0 <= i < y.len() ==> y[i] != sep,
    ensures
        split_on(y, sep) == seq![y],
    decreases y.len(),
{
    if y.len() > 0 {
        let yd = y.drop_last();
        lemma_split_on_none(yd, sep);
        assert(y.last() != sep);
        assert(split_on(yd, sep) == seq![yd]);
        assert(yd.push(y.last()) =~= y);
        assert(split_on(y, sep) =~= seq![y]);
    } else {
        assert(y =~= Seq::<char>::empty());
    }
}


/// First index at or after `k` at which `n` occurs in `h`.
pub open spec fn find_seq(h: Seq<char>, n: Seq<char>, k: int) -> Option<int>
    decreases h.len() + 1 - k,
{
    if k < 0 || k + n.len() > h.len() {
        None
    } else if occurs_at(h, n, k) {
        Some(k)
    } else {
        find_seq(h, n, k + 1)
    }
}

proof fn lemma_find_seq_some(h: Seq<char>, n: Seq<char>, k: int, i: int)
    requires
        0 <= k <= i,
        occurs_at(h, n, i),
        forall|j: int| k <= j < i ==> !occurs_at(h, n, j),
    ensures
        find_seq(h, n, k) == Some(i),
    decreases i - k,
{
    if k < i {
        lemma_find_seq_some(h, n, k + 1, i);
    }
}

proof fn lemma_find_seq_none(h: Seq<char>, n: Seq<char>, k: int)
    requires
        0 <= k,
        forall|j: int| k <= j ==> !occurs_at(h, n, j),
    ensures
        find_seq(h, n, k) is None,
    decreases h.len() + 1 - k,
{
    if k + n.len() <= h.len() {
        lemma_find_seq_none(h, n, k + 1);
    }
}

/// `str::find` with a string pattern.
pub fn find_str(h: &[char], n: &str) -> (r: Option<usize>)
    ensures
        match r {
            Some(i) => find_seq(h@, n@, 0) == Some(i as int) && occurs_at(h@, n@, i as int),
            None => find_seq(h@, n@, 0) is None,
        },
{
    let nv = chars_of(n);
    match find_from(h, nv.as_slice(), 0) {
        Some(i) => {
            proof {
                lemma_find_seq_some(h@, n@, 0, i as int);
            }
            Some(i)
        },
        None => {
            proof {
                lemma_find_seq_none(h@, n@, 0);
            }
            None
        },
    }
}

/// `str::split_once` with a string separator.
pub open spec fn split_once(s: Seq<char>, sep: Seq<char>) -> Option<(Seq<char>, Seq<char>)> {
    match find_seq(s, sep, 0) {
        Some(i) => Some((s.subrange(0, i), s.subrange(i + sep.len(), s.len() as int))),
        None => None,
    }
}

pub fn split_once_str(v: &[char], sep: &str) -> (r: Option<(Vec<char>, Vec<char>)>)
    ensures
        match r {
            Some((a, b)) => split_once(v@, sep@) == Some((a@, b@)),
            None => split_once(v@, sep@) is None,
        },
{
    match find_str(v, sep) {
        Some(i) => {
            let k = sep.unicode_len();
            let vl = v.len();
            assert(i + k <= vl);
            let a = sub_vec(v, 0, i);
            let b = sub_vec(v, i + k, vl);
            Some((a, b))
        },
        None => None,
    }
}

/// Where `trim_start` leaves `v` starting.
pub fn trim_start_index(v: &[char]) -> (r: usize)
    ensures
        r <= v@.len(),
        v@.subrange(r as int, v@.len() as int) == trim_start(v@),
{
    let n = v.len();
    let mut i: usize = 0;
    proof {
        assert(v@.subrange(0, n as int) =~= v@);
    }
    while i < n && is_whitespace(v[i])
        invariant
            0 <= i <= n,
            n == v@.len(),
            ws_prefix_len(v@) == i + ws_prefix_len(v@.subrange(i as int, n as int)),
        decreases n - i,
    {
        proof {
            lemma_ws_prefix_step(v@, i as int);
        }
        i = i + 1;
    }
    proof {
        let t = v@.subrange(i as int, n as int);
        if i < n {
            assert(t[0] == v@[i as int]);
        }
        assert(ws_prefix_len(t) == 0);
    }
    i
}

/// Length of the leading run of characters that are not whitespace.
pub open spec fn word_len(s: Seq<char>) -> nat
    decreases s.len(),
{
    if s.len() > 0 && !is_ws(s[0]) {
        1 + word_len(s.subrange(1, s.len() as int))
    } else {
        0
    }
}

/// `s.split_whitespace().next()`, or empty.
pub open spec fn first_word(s: Seq<char>) -> Seq<char> {
    let t = trim_start(s);
    t.subrange(0, word_len(t) as int)
}

proof fn lemma_word_len_step(s: Seq<char>, i: int)
    requires
        0 <= i < s.len(),
        !is_ws(s[i]),
        word_len(s) == i + word_len(s.subrange(i, s.len() as int)),
    ensures
        word_len(s) == (i + 1) + word_len(s.subrange(i + 1, s.len() as int)),
{
    let t = s.subrange(i, s.len() as int);
    assert(t.subrange(1, t.len() as int) =~= s.subrange(i + 1, s.len() as int));
}

pub fn first_word_of(v: &[char]) -> (r: Vec<char>)
    ensures
        r@ == first_word(v@),
{
    let n = v.len();
    let a = trim_start_index(v);
    let t = sub_vec(v, a, n);
    let tn = t.len();
    let mut i: usize = 0;
    proof {
        assert(t@.subrange(0, tn as int) =~= t@);
    }
    while i < tn && !is_whitespace(t[i])
        invariant
            i <= tn,
            tn == t@.len(),
            word_len(t@) == i + word_len(t@.subrange(i as int, tn as int)),
        decreases tn - i,
    {
        proof {
            lemma_word_len_step(t@, i as int);
        }
        i = i + 1;
    }
    proof {
        if i < tn {
            assert(t@.subrange(i as int, tn as int)[0] == t@[i as int]);
        }
        assert(word_len(t@.subrange(i as int, tn as int)) == 0);
    }
    sub_vec(t.as_slice(), 0, i)
}


/// What `char::is_alphanumeric` returns (Unicode `Alphabetic` or `Numeric`).
pub uninterp spec fn spec_is_alphanumeric(c: char) -> bool;

/// `char::is_alphanumeric`: only named, the Unicode tables are not restated.
#[verifier::external_body]
pub(crate) fn is_alphanumeric(c: char) -> (r: bool)
    ensures
        r == spec_is_alphanumeric(c),
{
    c.is_alphanumeric()
}

} // verus!
