//! Character-sequence toolkit: the specifications of the string operations the
//! library relies on (searching, splitting, replacing, trimming, UTF-8 byte
//! lengths), and verified implementations of them over `Vec<char>`.

use vstd::prelude::*;
use vstd::utf8::*;

verus! {

// ---------------------------------------------------------------------------
// Conversions between `str`/`String` and character vectors
// ---------------------------------------------------------------------------

/// Appends one character to a `String` (std's `String::push`).
#[verifier::external_body]
pub(crate) fn push_char(s: &mut String, c: char)
    ensures
        final(s)@ == old(s)@.push(c),
{
    s.push(c);
}

/// The characters of `s`, in order.
pub fn chars_of(s: &str) -> (r: Vec<char>)
    ensures
        r@ == s@,
{
    let mut r: Vec<char> = Vec::new();
    for c in it: s.chars()
        invariant
            r@ == it.seq().take(it.index() as int),
    {
        r.push(c);
    }
    r
}

/// A `String` holding the characters of `v[from..to]`.
pub fn string_of_range(v: &Vec<char>, from: usize, to: usize) -> (r: String)
    requires
        from <= to <= v.len(),
    ensures
        r@ == v@.subrange(from as int, to as int),
{
    let mut r = String::new();
    let mut i = from;
    while i < to
        invariant
            from <= i <= to <= v.len(),
            r@ == v@.subrange(from as int, i as int),
        decreases to - i,
    {
        push_char(&mut r, v[i]);
        assert(v@.subrange(from as int, i + 1) =~= v@.subrange(from as int, i as int).push(v@[i as int]));
        i = i + 1;
    }
    r
}

/// A `String` holding the characters of `v`.
pub fn string_of(v: &Vec<char>) -> (r: String)
    ensures
        r@ == v@,
{
    let r = string_of_range(v, 0, v.len());
    assert(v@.subrange(0, v@.len() as int) =~= v@);
    r
}

/// Appends the characters of `v` to `s`.
pub fn push_chars(s: &mut String, v: &Vec<char>)
    ensures
        final(s)@ == old(s)@ + v@,
{
    let mut i: usize = 0;
    while i < v.len()
        invariant
            i <= v.len(),
            s@ == old(s)@ + v@.take(i as int),
        decreases v.len() - i,
    {
        push_char(s, v[i]);
        assert(v@.take(i + 1) =~= v@.take(i as int).push(v@[i as int]));
        assert(old(s)@ + v@.take(i + 1) =~= (old(s)@ + v@.take(i as int)).push(v@[i as int]));
        i = i + 1;
    }
    assert(v@.take(v.len() as int) =~= v@);
}

/// Appends the characters of `t` to `s` (std's `String::push_str`).
pub fn push_str(s: &mut String, t: &str)
    ensures
        final(s)@ == old(s)@ + t@,
{
    let v = chars_of(t);
    push_chars(s, &v);
}

/// Appends `v[from..to]` to the character vector `out`.
pub fn extend_range(out: &mut Vec<char>, v: &Vec<char>, from: usize, to: usize)
    requires
        from <= to <= v.len(),
    ensures
        final(out)@ == old(out)@ + v@.subrange(from as int, to as int),
{
    let mut i = from;
    while i < to
        invariant
            from <= i <= to <= v.len(),
            out@ == old(out)@ + v@.subrange(from as int, i as int),
        decreases to - i,
    {
        out.push(v[i]);
        assert(old(out)@ + v@.subrange(from as int, i + 1) =~= (old(out)@ + v@.subrange(from as int, i as int)).push(v@[i as int]));
        i = i + 1;
    }
}

/// Appends all of `v` to the character vector `out`.
pub fn extend_all(out: &mut Vec<char>, v: &Vec<char>)
    ensures
        final(out)@ == old(out)@ + v@,
{
    extend_range(out, v, 0, v.len());
    assert(v@.subrange(0, v@.len() as int) =~= v@);
}

// ---------------------------------------------------------------------------
// Whitespace and trimming
// ---------------------------------------------------------------------------

/// Unicode `White_Space`, the property that std's `char::is_whitespace` tests.
pub open spec fn is_ws(c: char) -> bool {
    let v = c as u32;
    ||| 0x09 <= v <= 0x0D
    ||| v == 0x20
    ||| v == 0x85
    ||| v == 0xA0
    ||| v == 0x1680
    ||| 0x2000 <= v <= 0x200A
    ||| v == 0x2028
    ||| v == 0x2029
    ||| v == 0x202F
    ||| v == 0x205F
    ||| v == 0x3000
}

/// Whether `c` is whitespace.
pub fn is_whitespace(c: char) -> (b: bool)
    ensures
        b == is_ws(c),
{
    let v = c as u32;
    (0x09 <= v && v <= 0x0D) || v == 0x20 || v == 0x85 || v == 0xA0 || v == 0x1680
        || (0x2000 <= v && v <= 0x200A) || v == 0x2028 || v == 0x2029 || v == 0x202F
        || v == 0x205F || v == 0x3000
}

/// Whether some character of `s` is whitespace.
pub open spec fn has_ws(s: Seq<char>) -> bool {
    exists|i: int| 0 <= i < s.len() && is_ws(#[trigger] s[i])
}

/// Index of the first non-whitespace character at or after `i` (or `s.len()`).
pub open spec fn skip_ws(s: Seq<char>, i: int) -> int
    decreases s.len() - i,
{
    if i < 0 || i >= s.len() {
        if i < 0 { 0 } else { s.len() as int }
    } else if is_ws(s[i]) {
        skip_ws(s, i + 1)
    } else {
        i
    }
}

/// Index of the first whitespace character at or after `i` (or `s.len()`).
pub open spec fn skip_non_ws(s: Seq<char>, i: int) -> int
    decreases s.len() - i,
{
    if i < 0 || i >= s.len() {
        if i < 0 { 0 } else { s.len() as int }
    } else if !is_ws(s[i]) {
        skip_non_ws(s, i + 1)
    } else {
        i
    }
}

/// One past the last non-whitespace character in `s[..j]` (or 0).
pub open spec fn back_skip_ws(s: Seq<char>, j: int) -> int
    decreases j,
{
    if j <= 0 || j > s.len() {
        if j <= 0 { 0 } else { s.len() as int }
    } else if is_ws(s[j - 1]) {
        back_skip_ws(s, j - 1)
    } else {
        j
    }
}

/// `s` without leading whitespace (std's `str::trim_start`).
pub open spec fn trim_start(s: Seq<char>) -> Seq<char> {
    s.subrange(skip_ws(s, 0), s.len() as int)
}

/// `s` without trailing whitespace (std's `str::trim_end`).
pub open spec fn trim_end(s: Seq<char>) -> Seq<char> {
    s.subrange(0, back_skip_ws(s, s.len() as int))
}

/// `s` without leading and trailing whitespace (std's `str::trim`).
pub open spec fn trim(s: Seq<char>) -> Seq<char> {
    trim_end(trim_start(s))
}

pub proof fn lemma_skip_ws(s: Seq<char>, i: int)
    requires
        0 <= i <= s.len(),
    ensures
        i <= skip_ws(s, i) <= s.len(),
        forall|k: int| i <= k < skip_ws(s, i) ==> is_ws(#[trigger] s[k]),
        skip_ws(s, i) < s.len() ==> !is_ws(s[skip_ws(s, i)]),
    decreases s.len() - i,
{
    if i < s.len() && is_ws(s[i]) {
        lemma_skip_ws(s, i + 1);
    }
}

pub proof fn lemma_skip_non_ws(s: Seq<char>, i: int)
    requires
        0 <= i <= s.len(),
    ensures
        i <= skip_non_ws(s, i) <= s.len(),
        forall|k: int| i <= k < skip_non_ws(s, i) ==> !is_ws(#[trigger] s[k]),
        skip_non_ws(s, i) < s.len() ==> is_ws(s[skip_non_ws(s, i)]),
    decreases s.len() - i,
{
    if i < s.len() && !is_ws(s[i]) {
        lemma_skip_non_ws(s, i + 1);
    }
}

pub proof fn lemma_back_skip_ws(s: Seq<char>, j: int)
    requires
        0 <= j <= s.len(),
    ensures
        0 <= back_skip_ws(s, j) <= j,
        forall|k: int| back_skip_ws(s, j) <= k < j ==> is_ws(#[trigger] s[k]),
        back_skip_ws(s, j) > 0 ==> !is_ws(s[back_skip_ws(s, j) - 1]),
    decreases j,
{
    if j > 0 && is_ws(s[j - 1]) {
        lemma_back_skip_ws(s, j - 1);
    }
}

/// A trimmed text is a piece of the text that neither starts nor ends with
/// whitespace.
pub proof fn lemma_trim_shape(s: Seq<char>)
    ensures
        exists|a: int, b: int| 0 <= a <= b <= s.len() && trim(s) == s.subrange(a, b),
        trim(s).len() > 0 ==> !is_ws(trim(s)[0]) && !is_ws(trim(s).last()),
{
    lemma_skip_ws(s, 0);
    let a = skip_ws(s, 0);
    let t = trim_start(s);
    lemma_back_skip_ws(t, t.len() as int);
    let b = back_skip_ws(t, t.len() as int);
    assert(trim(s) =~= s.subrange(a, a + b));
    if b > 0 {
        assert(trim(s)[0] == s[a]);
        assert(trim(s).last() == t[b - 1]);
    }
}

/// A text that neither starts nor ends with whitespace is its own trim.
pub proof fn lemma_trim_fixed(t: Seq<char>)
    requires
        t.len() == 0 || (!is_ws(t[0]) && !is_ws(t.last())),
    ensures
        trim(t) == t,
{
    if t.len() > 0 {
        assert(skip_ws(t, 0) == 0);
        assert(trim_start(t) =~= t);
        assert(back_skip_ws(t, t.len() as int) == t.len());
    } else {
        assert(trim_start(t) =~= t);
    }
    assert(trim(t) =~= t);
}

/// Trimming twice is trimming once, and trimming never adds bytes.
pub proof fn lemma_trim_twice(s: Seq<char>)
    ensures
        trim(trim(s)) == trim(s),
        utf8_len(trim(s)) <= utf8_len(s),
{
    lemma_trim_shape(s);
    lemma_trim_fixed(trim(s));
    let (a, b) = choose|a: int, b: int| 0 <= a <= b <= s.len() && trim(s) == s.subrange(a, b);
    lemma_utf8_len_subrange(s, a, b);
}

/// A word followed by a space trims back to the word.
pub proof fn lemma_trim_word_space(w: Seq<char>)
    requires
        w.len() > 0,
        !has_ws(w),
    ensures
        trim(w.push(' ')) == w,
{
    let t = w.push(' ');
    assert(!is_ws(w[0]));
    assert(!is_ws(w.last()));
    assert(t[0] == w[0]);
    assert(skip_ws(t, 0) == 0);
    assert(trim_start(t) =~= t);
    assert(is_ws(t[t.len() - 1]));
    assert(t[t.len() - 2] == w.last());
    assert(back_skip_ws(t, t.len() - 1) == t.len() - 1);
    assert(back_skip_ws(t, t.len() as int) == t.len() - 1);
    assert(trim(t) =~= w);
}

/// The words of a text are not empty and hold no whitespace.
pub proof fn lemma_words_clean(s: Seq<char>, i: int)
    ensures
        forall|j: int| 0 <= j < words_from(s, i).len() ==> (#[trigger] words_from(s, i)[j]).len() > 0 && !has_ws(
            words_from(s, i)[j],
        ),
    decreases s.len() - i,
{
    if 0 <= i < s.len() {
        lemma_skip_ws(s, i);
        let a = skip_ws(s, i);
        if a < s.len() {
            lemma_skip_non_ws(s, a + 1);
            assert(skip_non_ws(s, a) == skip_non_ws(s, a + 1));
            lemma_skip_non_ws(s, a);
            let b = skip_non_ws(s, a);
            lemma_words_clean(s, b);
            let w = s.subrange(a, b);
            assert forall|k: int| 0 <= k < w.len() implies !is_ws(#[trigger] w[k]) by {
                assert(w[k] == s[a + k]);
            }
            let ws = words_from(s, i);
            let rest = words_from(s, b);
            assert(ws == seq![w] + rest);
            assert forall|j: int| 0 <= j < ws.len() implies (#[trigger] ws[j]).len() > 0 && !has_ws(ws[j]) by {
                if j > 0 {
                    assert(ws[j] == rest[j - 1]);
                }
            }
        }
    }
}

/// Index of the first non-whitespace character of `v` at or after `i`.
pub fn skip_ws_exec(v: &Vec<char>, i: usize) -> (r: usize)
    requires
        i <= v.len(),
    ensures
        r == skip_ws(v@, i as int),
{
    let mut j = i;
    while j < v.len() && is_whitespace(v[j])
        invariant
            i <= j <= v.len(),
            skip_ws(v@, i as int) == skip_ws(v@, j as int),
        decreases v.len() - j,
    {
        j = j + 1;
    }
    j
}

/// Index of the first whitespace character of `v` at or after `i`.
pub fn skip_non_ws_exec(v: &Vec<char>, i: usize) -> (r: usize)
    requires
        i <= v.len(),
    ensures
        r == skip_non_ws(v@, i as int),
{
    let mut j = i;
    while j < v.len() && !is_whitespace(v[j])
        invariant
            i <= j <= v.len(),
            skip_non_ws(v@, i as int) == skip_non_ws(v@, j as int),
        decreases v.len() - j,
    {
        j = j + 1;
    }
    j
}

/// One past the last non-whitespace character of `v[..j]`.
pub fn back_skip_ws_exec(v: &Vec<char>, j: usize) -> (r: usize)
    requires
        j <= v.len(),
    ensures
        r == back_skip_ws(v@, j as int),
{
    let mut k = j;
    while k > 0 && is_whitespace(v[k - 1])
        invariant
            k <= j <= v.len(),
            back_skip_ws(v@, j as int) == back_skip_ws(v@, k as int),
        decreases k,
    {
        k = k - 1;
    }
    k
}

/// Bounds `(start, end)` such that `v[start..end]` is `trim(v)`.
pub fn trim_bounds(v: &Vec<char>) -> (r: (usize, usize))
    ensures
        r.0 <= r.1 <= v.len(),
        v@.subrange(r.0 as int, r.1 as int) == trim(v@),
{
    let s = skip_ws_exec(v, 0);
    proof { lemma_skip_ws(v@, 0); }
    let ghost t = v@.subrange(s as int, v@.len() as int);
    // trailing whitespace of the whole sequence, measured from the back
    let mut e = v.len();
    while e > s && is_whitespace(v[e - 1])
        invariant
            s <= e <= v.len(),
            t == v@.subrange(s as int, v@.len() as int),
            back_skip_ws(t, t.len() as int) == back_skip_ws(t, e - s),
        decreases e,
    {
        assert(t[e - s - 1] == v@[e - 1]);
        e = e - 1;
    }
    proof {
        if e > s {
            assert(t[e - s - 1] == v@[e - 1]);
        }
        assert(v@.subrange(s as int, e as int) =~= t.subrange(0, e - s));
    }
    (s, e)
}

/// `trim(s)` as a new `String`.
pub fn trim_string(s: &str) -> (r: String)
    ensures
        r@ == trim(s@),
{
    let v = chars_of(s);
    let (a, b) = trim_bounds(&v);
    string_of_range(&v, a, b)
}


/// The given text trimmed, when it is not blank (a title or link typed into
/// a form).
pub fn trimmed_nonblank(s: Option<String>) -> (r: Option<String>)
    ensures
        match s {
            Some(t) if trim(t@).len() > 0 => r matches Some(x) && x@ == trim(t@),
            _ => r is None,
        },
{
    match s {
        Some(t) => {
            let v = chars_of(t.as_str());
            let (a, b) = trim_bounds(&v);
            if b > a {
                Some(string_of_range(&v, a, b))
            } else {
                None
            }
        },
        None => None,
    }
}


// ---------------------------------------------------------------------------
// Searching
// ---------------------------------------------------------------------------

/// `p` occurs in `s` starting at index `i`.
pub open spec fn occurs_at(s: Seq<char>, p: Seq<char>, i: int) -> bool {
    0 <= i && i + p.len() <= s.len() && s.subrange(i, i + p.len()) == p
}

/// `p` occurs somewhere in `s` (std's `str::contains`).
pub open spec fn contains(s: Seq<char>, p: Seq<char>) -> bool {
    exists|i: int| occurs_at(s, p, i)
}

/// `s` starts with `p`.
pub open spec fn starts_with(s: Seq<char>, p: Seq<char>) -> bool {
    p.len() <= s.len() && s.take(p.len() as int) == p
}

/// `s` ends with `p`.
pub open spec fn ends_with(s: Seq<char>, p: Seq<char>) -> bool {
    p.len() <= s.len() && s.skip(s.len() - p.len()) == p
}

/// The first index `k >= i` at which `p` occurs in `s` (std's `str::find` from `i`).
pub open spec fn find_from(s: Seq<char>, p: Seq<char>, i: int) -> Option<int>
    decreases s.len() + 1 - i,
{
    if i < 0 || i + p.len() > s.len() {
        None
    } else if occurs_at(s, p, i) {
        Some(i)
    } else {
        find_from(s, p, i + 1)
    }
}

/// The first index at which `p` occurs in `s` (std's `str::find`).
pub open spec fn find(s: Seq<char>, p: Seq<char>) -> Option<int> {
    find_from(s, p, 0)
}

/// The last index `k <= i` at which `p` occurs in `s`.
pub open spec fn rfind_upto(s: Seq<char>, p: Seq<char>, i: int) -> Option<int>
    decreases i + 1,
{
    if i < 0 {
        None
    } else if occurs_at(s, p, i) {
        Some(i)
    } else {
        rfind_upto(s, p, i - 1)
    }
}

/// The last index at which `p` occurs in `s` (std's `str::rfind`).
pub open spec fn rfind(s: Seq<char>, p: Seq<char>) -> Option<int> {
    rfind_upto(s, p, s.len() - p.len())
}

pub proof fn lemma_find_from(s: Seq<char>, p: Seq<char>, i: int)
    requires
        0 <= i,
    ensures
        find_from(s, p, i) matches Some(k) ==> i <= k && occurs_at(s, p, k) && forall|j: int|
            i <= j < k ==> !occurs_at(s, p, j),
        find_from(s, p, i) is None ==> forall|j: int| i <= j ==> !occurs_at(s, p, j),
    decreases s.len() + 1 - i,
{
    if i + p.len() <= s.len() && !occurs_at(s, p, i) {
        lemma_find_from(s, p, i + 1);
        assert forall|j: int| i <= j && find_from(s, p, i) is None implies !occurs_at(s, p, j) by {
            if j == i {
            }
        }
    }
}

pub proof fn lemma_find(s: Seq<char>, p: Seq<char>)
    ensures
        find(s, p) matches Some(k) ==> occurs_at(s, p, k) && forall|j: int|
            0 <= j < k ==> !occurs_at(s, p, j),
        find(s, p) is None <==> !contains(s, p),
{
    lemma_find_from(s, p, 0);
    if find(s, p) is None {
        assert forall|j: int| !occurs_at(s, p, j) by {
            if j >= 0 {
            }
        }
    }
}

pub proof fn lemma_rfind_upto(s: Seq<char>, p: Seq<char>, i: int)
    ensures
        rfind_upto(s, p, i) matches Some(k) ==> k <= i && occurs_at(s, p, k) && forall|j: int|
            k < j <= i ==> !occurs_at(s, p, j),
        rfind_upto(s, p, i) is None ==> forall|j: int| j <= i ==> !occurs_at(s, p, j),
    decreases i + 1,
{
    if i >= 0 && !occurs_at(s, p, i) {
        lemma_rfind_upto(s, p, i - 1);
    }
}

pub proof fn lemma_rfind(s: Seq<char>, p: Seq<char>)
    ensures
        rfind(s, p) matches Some(k) ==> occurs_at(s, p, k) && forall|j: int|
            k < j ==> !occurs_at(s, p, j),
        rfind(s, p) is None <==> !contains(s, p),
{
    lemma_rfind_upto(s, p, s.len() - p.len());
    if rfind(s, p) is Some {
        let k = rfind(s, p)->0;
        assert forall|j: int| k < j implies !occurs_at(s, p, j) by {
            if j > s.len() - p.len() {
            }
        }
    } else {
        assert forall|j: int| !occurs_at(s, p, j) by {
            if j > s.len() - p.len() {
            }
        }
    }
}

/// `find` gives `k` when `p` occurs at `k` and at no earlier index.
pub proof fn lemma_find_exact(s: Seq<char>, p: Seq<char>, k: int)
    requires
        occurs_at(s, p, k),
        forall|j: int| 0 <= j < k ==> !occurs_at(s, p, j),
    ensures
        find(s, p) == Some(k),
{
    lemma_find(s, p);
    match find(s, p) {
        Some(f) => {
            if f > k {
                assert(!occurs_at(s, p, k));
            }
            if f < k {
                assert(!occurs_at(s, p, f));
            }
        },
        None => {
            assert(contains(s, p));
        },
    }
}

/// `find_from` gives `k` when `p` occurs at `k` and nowhere from `i` before it.
pub proof fn lemma_find_from_exact(s: Seq<char>, p: Seq<char>, i: int, k: int)
    requires
        0 <= i <= k,
        occurs_at(s, p, k),
        forall|j: int| i <= j < k ==> !occurs_at(s, p, j),
    ensures
        find_from(s, p, i) == Some(k),
{
    lemma_find_from(s, p, i);
    match find_from(s, p, i) {
        Some(f) => {
            if f > k {
                assert(!occurs_at(s, p, k));
            }
            if f < k {
                assert(!occurs_at(s, p, f));
            }
        },
        None => {},
    }
}

/// Searching in `a + q` from inside `q` finds what searching in `q` finds,
/// shifted by `a`'s length.
pub proof fn lemma_find_from_shift(a: Seq<char>, q: Seq<char>, p: Seq<char>, i: int)
    requires
        0 <= i,
    ensures
        find_from(a + q, p, a.len() + i) == (match find_from(q, p, i) {
            Some(k) => Some(k + a.len()),
            None => None,
        }),
    decreases q.len() + 1 - i,
{
    let s = a + q;
    if i + p.len() <= q.len() {
        assert(s.subrange(a.len() + i, a.len() + i + p.len()) =~= q.subrange(i, i + p.len()));
        if !occurs_at(q, p, i) {
            lemma_find_from_shift(a, q, p, i + 1);
            assert(a.len() + i + 1 == a.len() + (i + 1));
        }
    }
}

/// Replacing a pattern that does not occur from `i` on keeps the rest as is.
pub proof fn lemma_replace_from_none(s: Seq<char>, p: Seq<char>, r: Seq<char>, i: int)
    requires
        p.len() > 0,
        0 <= i <= s.len(),
        forall|j: int| i <= j ==> !occurs_at(s, p, j),
    ensures
        replace_from(s, p, r, i) == s.subrange(i, s.len() as int),
{
    lemma_find_from(s, p, i);
}

/// Replacing a pattern that does not occur leaves the text unchanged.
pub proof fn lemma_replace_absent(s: Seq<char>, p: Seq<char>, r: Seq<char>)
    requires
        p.len() > 0,
        !contains(s, p),
    ensures
        replace(s, p, r) == s,
{
    lemma_replace_from_none(s, p, r, 0);
    assert(s.subrange(0, s.len() as int) =~= s);
}

/// Replacing the one occurrence of `p` in `a + p + b` (where `a` holds no
/// character that starts `p` and `b` holds no `p`) gives `a + r + b`.
pub proof fn lemma_replace_single(a: Seq<char>, p: Seq<char>, b: Seq<char>, r: Seq<char>)
    requires
        p.len() > 0,
        forall|k: int| 0 <= k < a.len() ==> a[k] != p[0],
        !contains(b, p),
    ensures
        replace(a + p + b, p, r) == a + r + b,
{
    let s = a + p + b;
    let off: int = (a.len() + p.len()) as int;
    assert(s.subrange(a.len() as int, off) =~= p);
    assert forall|j: int| 0 <= j < a.len() implies !occurs_at(s, p, j) by {
        if occurs_at(s, p, j) {
            assert(s.subrange(j, j + p.len())[0] == s[j]);
        }
    }
    lemma_find_from_exact(s, p, 0, a.len() as int);
    assert forall|j: int| off <= j implies !occurs_at(s, p, j) by {
        if occurs_at(s, p, j) {
            assert(s.subrange(j, j + p.len()) =~= b.subrange(j - off, j - off + p.len()));
            assert(occurs_at(b, p, j - off));
        }
    }
    lemma_replace_from_none(s, p, r, off);
    assert(s.subrange(0, a.len() as int) =~= a);
    assert(s.subrange(off, s.len() as int) =~= b);
}

/// Whether `p` occurs in `v` at index `i`.
pub fn occurs_at_exec(v: &Vec<char>, p: &Vec<char>, i: usize) -> (b: bool)
    ensures
        b == occurs_at(v@, p@, i as int),
{
    if i > v.len() || p.len() > v.len() - i {
        return false;
    }
    let mut k: usize = 0;
    while k < p.len()
        invariant
            k <= p.len(),
            i + p.len() <= v.len(),
            forall|m: int| 0 <= m < k ==> v@[i + m] == p@[m],
        decreases p.len() - k,
    {
        if v[i + k] != p[k] {
            assert(v@.subrange(i as int, i + p.len())[k as int] != p@[k as int]);
            return false;
        }
        k = k + 1;
    }
    assert(v@.subrange(i as int, i + p.len()) =~= p@);
    true
}

/// The first index `k >= i` at which `p` occurs in `v`.
pub fn find_from_exec(v: &Vec<char>, p: &Vec<char>, i: usize) -> (r: Option<usize>)
    ensures
        r == (match find_from(v@, p@, i as int) {
            Some(k) => Some(k as usize),
            None => None,
        }),
        r matches Some(k) ==> i <= k && k + p.len() <= v.len() && find_from(v@, p@, i as int)
            == Some(k as int),
{
    proof { lemma_find_from(v@, p@, i as int); }
    if p.len() == 0 {
        if i <= v.len() {
            assert(v@.subrange(i as int, i as int) =~= p@);
            return Some(i);
        }
        return None;
    }
    let mut j = i;
    while j <= v.len() && p.len() <= v.len() - j
        invariant
            i <= j,
            p.len() > 0,
            find_from(v@, p@, i as int) == find_from(v@, p@, j as int),
        decreases v.len() + 1 - j,
    {
        if occurs_at_exec(v, p, j) {
            return Some(j);
        }
        j = j + 1;
    }
    None
}

/// The last index at which `p` occurs in `v`.
pub fn rfind_exec(v: &Vec<char>, p: &Vec<char>) -> (r: Option<usize>)
    ensures
        r == (match rfind(v@, p@) {
            Some(k) => Some(k as usize),
            None => None,
        }),
        r matches Some(k) ==> k + p.len() <= v.len() && rfind(v@, p@) == Some(k as int),
{
    proof { lemma_rfind(v@, p@); }
    if p.len() > v.len() {
        return None;
    }
    let mut j = v.len() - p.len();
    loop
        invariant
            j + p.len() <= v.len(),
            rfind(v@, p@) == rfind_upto(v@, p@, j as int),
        decreases j,
    {
        if occurs_at_exec(v, p, j) {
            return Some(j);
        }
        if j == 0 {
            assert(rfind_upto(v@, p@, -1) is None);
            return None;
        }
        j = j - 1;
    }
}

/// Whether `p` occurs in `v`.
pub fn contains_exec(v: &Vec<char>, p: &Vec<char>) -> (b: bool)
    ensures
        b == contains(v@, p@),
{
    proof { lemma_find(v@, p@); }
    find_from_exec(v, p, 0).is_some()
}

/// Whether `v` starts with `p`.
pub fn starts_with_exec(v: &Vec<char>, p: &Vec<char>) -> (b: bool)
    ensures
        b == starts_with(v@, p@),
{
    let b = occurs_at_exec(v, p, 0);
    proof {
        if p@.len() <= v@.len() {
            assert(v@.subrange(0, p@.len() as int) =~= v@.take(p@.len() as int));
        }
    }
    b
}

/// Whether `v` ends with `p`.
pub fn ends_with_exec(v: &Vec<char>, p: &Vec<char>) -> (b: bool)
    ensures
        b == ends_with(v@, p@),
{
    if p.len() > v.len() {
        return false;
    }
    let b = occurs_at_exec(v, p, v.len() - p.len());
    proof {
        assert(v@.subrange(v@.len() - p@.len(), v@.len() as int) =~= v@.skip(v@.len() - p@.len()));
    }
    b
}

// ---------------------------------------------------------------------------
// Splitting and replacing
// ---------------------------------------------------------------------------

/// The pieces of `s[i..]` between the non-overlapping occurrences of `p`,
/// scanned from the left (std's `str::split` with a non-empty pattern).
pub open spec fn split_from(s: Seq<char>, p: Seq<char>, i: int) -> Seq<Seq<char>>
    decreases s.len() - i,
{
    if p.len() == 0 || i < 0 || i > s.len() {
        seq![s.subrange(i, s.len() as int)]
    } else {
        match find_from(s, p, i) {
            Some(k) => if i <= k && k + p.len() <= s.len() {
                seq![s.subrange(i, k)] + split_from(s, p, k + p.len())
            } else {
                seq![s.subrange(i, s.len() as int)]
            },
            None => seq![s.subrange(i, s.len() as int)],
        }
    }
}

/// `s.split(p)` for a non-empty `p`.
pub open spec fn split(s: Seq<char>, p: Seq<char>) -> Seq<Seq<char>> {
    split_from(s, p, 0)
}

/// `s[i..]` with every non-overlapping occurrence of `p` (scanned from the
/// left) replaced by `r` (std's `str::replace` with a non-empty pattern).
pub open spec fn replace_from(s: Seq<char>, p: Seq<char>, r: Seq<char>, i: int) -> Seq<char>
    decreases s.len() - i,
{
    if p.len() == 0 || i < 0 || i > s.len() {
        s.subrange(i, s.len() as int)
    } else {
        match find_from(s, p, i) {
            Some(k) => if i <= k && k + p.len() <= s.len() {
                s.subrange(i, k) + r + replace_from(s, p, r, k + p.len())
            } else {
                s.subrange(i, s.len() as int)
            },
            None => s.subrange(i, s.len() as int),
        }
    }
}

/// `s.replace(p, r)` for a non-empty `p`.
pub open spec fn replace(s: Seq<char>, p: Seq<char>, r: Seq<char>) -> Seq<char> {
    replace_from(s, p, r, 0)
}

/// `bounds` are pairs of indices into `v` that delimit the pieces `pieces`.
pub open spec fn delimits(bounds: Seq<(usize, usize)>, v: Seq<char>, pieces: Seq<Seq<char>>) -> bool {
    &&& bounds.len() == pieces.len()
    &&& forall|j: int| 0 <= j < bounds.len() ==> #[trigger] bounds[j].0 <= bounds[j].1 <= v.len()
        && v.subrange(bounds[j].0 as int, bounds[j].1 as int) == pieces[j]
}

/// Splits `v` at the occurrences of the non-empty `p`; each piece is returned
/// as a pair of bounds into `v`.
pub fn split_bounds(v: &Vec<char>, p: &Vec<char>) -> (r: Vec<(usize, usize)>)
    requires
        p.len() > 0,
    ensures
        delimits(r@, v@, split(v@, p@)),
{
    let mut out: Vec<(usize, usize)> = Vec::new();
    let mut i: usize = 0;
    let ghost mut done: Seq<Seq<char>> = Seq::empty();
    loop
        invariant
            p.len() > 0,
            i <= v.len(),
            out@.len() == done.len(),
            done + split_from(v@, p@, i as int) == split(v@, p@),
            forall|j: int| 0 <= j < out@.len() ==> #[trigger] out@[j].0 <= out@[j].1 <= v.len()
                && v@.subrange(out@[j].0 as int, out@[j].1 as int) == done[j],
        decreases v.len() - i,
    {
        match find_from_exec(v, p, i) {
            Some(k) => {
                proof {
                    assert(split_from(v@, p@, i as int) == seq![v@.subrange(i as int, k as int)]
                        + split_from(v@, p@, k + p@.len()));
                    done = done.push(v@.subrange(i as int, k as int));
                    assert(done + split_from(v@, p@, k + p@.len()) =~= split(v@, p@));
                }
                out.push((i, k));
                i = k + p.len();
            },
            None => {
                proof {
                    done = done.push(v@.subrange(i as int, v@.len() as int));
                    assert(done =~= split(v@, p@));
                }
                out.push((i, v.len()));
                return out;
            },
        }
    }
}

/// `replace(v, p, r)` for a non-empty `p`.
pub fn replace_exec(v: &Vec<char>, p: &Vec<char>, r: &Vec<char>) -> (out: Vec<char>)
    requires
        p.len() > 0,
    ensures
        out@ == replace(v@, p@, r@),
{
    let mut out: Vec<char> = Vec::new();
    let mut i: usize = 0;
    loop
        invariant
            p.len() > 0,
            i <= v.len(),
            out@ + replace_from(v@, p@, r@, i as int) == replace(v@, p@, r@),
        decreases v.len() - i,
    {
        match find_from_exec(v, p, i) {
            Some(k) => {
                let ghost before = out@;
                extend_range(&mut out, v, i, k);
                extend_all(&mut out, r);
                proof {
                    assert(replace_from(v@, p@, r@, i as int) == v@.subrange(i as int, k as int) + r@
                        + replace_from(v@, p@, r@, k + p@.len()));
                    assert(out@ + replace_from(v@, p@, r@, k + p@.len()) =~= before + replace_from(v@, p@, r@, i as int));
                }
                i = k + p.len();
            },
            None => {
                let ghost before = out@;
                extend_range(&mut out, v, i, v.len());
                return out;
            },
        }
    }
}

/// `s.replace(p, r)` on strings, for a non-empty `p`.
pub fn replace_str(s: &str, p: &str, r: &str) -> (out: String)
    requires
        p@.len() > 0,
    ensures
        out@ == replace(s@, p@, r@),
{
    let v = chars_of(s);
    let pv = chars_of(p);
    let rv = chars_of(r);
    let o = replace_exec(&v, &pv, &rv);
    string_of(&o)
}

// ---------------------------------------------------------------------------
// UTF-8 byte lengths
// ---------------------------------------------------------------------------

/// Number of bytes in the UTF-8 encoding of `c`.
pub open spec fn char_width(c: char) -> nat {
    let v = c as u32;
    if v <= 0x7F {
        1
    } else if v <= 0x7FF {
        2
    } else if v <= 0xFFFF {
        3
    } else {
        4
    }
}

/// Number of bytes in the UTF-8 encoding of `s` (what std's `str::len` returns).
pub open spec fn utf8_len(s: Seq<char>) -> nat
    decreases s.len(),
{
    if s.len() == 0 {
        0
    } else {
        char_width(s[0]) + utf8_len(s.drop_first())
    }
}

/// `utf8_len` is the length of vstd's UTF-8 encoding.
pub proof fn lemma_utf8_len_encode(s: Seq<char>)
    ensures
        utf8_len(s) == encode_utf8(s).len(),
    decreases s.len(),
{
    if s.len() > 0 {
        char_is_scalar(s[0]);
        lemma_utf8_len_encode(s.drop_first());
    }
}

/// The byte length of a concatenation is the sum of the byte lengths.
pub proof fn lemma_utf8_len_concat(a: Seq<char>, b: Seq<char>)
    ensures
        utf8_len(a + b) == utf8_len(a) + utf8_len(b),
    decreases a.len(),
{
    if a.len() > 0 {
        assert((a + b).drop_first() =~= a.drop_first() + b);
        lemma_utf8_len_concat(a.drop_first(), b);
    } else {
        assert(a + b =~= b);
    }
}

/// Appending one character adds its width.
pub proof fn lemma_utf8_len_push(a: Seq<char>, c: char)
    ensures
        utf8_len(a.push(c)) == utf8_len(a) + char_width(c),
{
    lemma_utf8_len_concat(a, seq![c]);
    assert(a + seq![c] =~= a.push(c));
    assert(seq![c].drop_first() =~= Seq::<char>::empty());
    assert(utf8_len(seq![c]) == char_width(c) + utf8_len(seq![c].drop_first()));
}

/// A character sequence is at least as long in bytes as in characters.
pub proof fn lemma_utf8_len_ge_len(a: Seq<char>)
    ensures
        utf8_len(a) >= a.len(),
    decreases a.len(),
{
    if a.len() > 0 {
        lemma_utf8_len_ge_len(a.drop_first());
    }
}

/// A sub-range is no longer in bytes than the whole.
pub proof fn lemma_utf8_len_subrange(a: Seq<char>, i: int, j: int)
    requires
        0 <= i <= j <= a.len(),
    ensures
        utf8_len(a.subrange(i, j)) <= utf8_len(a),
        utf8_len(a.subrange(0, i)) + utf8_len(a.subrange(i, j)) + utf8_len(a.subrange(j, a.len() as int))
            == utf8_len(a),
{
    lemma_utf8_len_concat(a.subrange(0, i), a.subrange(i, j));
    lemma_utf8_len_concat(a.subrange(0, i) + a.subrange(i, j), a.subrange(j, a.len() as int));
    assert(a.subrange(0, i) + a.subrange(i, j) + a.subrange(j, a.len() as int) =~= a);
}

/// Bytes in the UTF-8 encoding of `c`.
pub fn char_width_exec(c: char) -> (w: usize)
    ensures
        w == char_width(c),
        1 <= w <= 4,
{
    let v = c as u32;
    if v <= 0x7F {
        1
    } else if v <= 0x7FF {
        2
    } else if v <= 0xFFFF {
        3
    } else {
        4
    }
}

/// Byte length of a string.
pub fn str_byte_len(s: &str) -> (n: usize)
    ensures
        n == utf8_len(s@),
{
    proof { lemma_utf8_len_encode(s@); }
    let b = s.as_bytes();
    b.len()
}


// ---------------------------------------------------------------------------
// Words and lines
// ---------------------------------------------------------------------------

/// The maximal runs of non-whitespace characters of `s[i..]`, in order
/// (std's `str::split_whitespace`).
pub open spec fn words_from(s: Seq<char>, i: int) -> Seq<Seq<char>>
    decreases s.len() - i,
{
    if i < 0 || i >= s.len() {
        Seq::empty()
    } else {
        let a = skip_ws(s, i);
        let b = skip_non_ws(s, a);
        if a < s.len() && i <= a < b <= s.len() {
            seq![s.subrange(a, b)] + words_from(s, b)
        } else {
            Seq::empty()
        }
    }
}

/// `s.split_whitespace()`.
pub open spec fn words(s: Seq<char>) -> Seq<Seq<char>> {
    words_from(s, 0)
}

/// Drops one trailing carriage return.
pub open spec fn strip_cr(s: Seq<char>) -> Seq<char> {
    if s.len() > 0 && s.last() == '\r' {
        s.drop_last()
    } else {
        s
    }
}

/// The lines of `s[i..]` (std's `str::lines`): pieces ending in a line feed,
/// with that line feed and one carriage return before it removed, and a final
/// piece without a line feed kept as it is when it is not empty.
pub open spec fn lines_from(s: Seq<char>, i: int) -> Seq<Seq<char>>
    decreases s.len() - i,
{
    if i < 0 || i >= s.len() {
        Seq::empty()
    } else {
        match find_from(s, seq!['\n'], i) {
            Some(k) => if i <= k < s.len() {
                seq![strip_cr(s.subrange(i, k))] + lines_from(s, k + 1)
            } else {
                Seq::empty()
            },
            None => seq![s.subrange(i, s.len() as int)],
        }
    }
}

/// `s.lines()`.
pub open spec fn lines(s: Seq<char>) -> Seq<Seq<char>> {
    lines_from(s, 0)
}

/// The first line of `s`, if any (`s.lines().next()`).
pub open spec fn first_line(s: Seq<char>) -> Option<Seq<char>> {
    if lines(s).len() > 0 {
        Some(lines(s)[0])
    } else {
        None
    }
}

/// `first_line(v)`.
pub fn first_line_exec(v: &Vec<char>) -> (r: Option<Vec<char>>)
    ensures
        match first_line(v@) {
            Some(l) => r matches Some(x) && x@ == l,
            None => r is None,
        },
{
    if v.len() == 0 {
        return None;
    }
    let nl = vec!['\n'];
    assert(nl@ =~= seq!['\n']);
    match find_from_exec(v, &nl, 0) {
        Some(k) => {
            let mut line: Vec<char> = Vec::new();
            if k > 0 && v[k - 1] == '\r' {
                extend_range(&mut line, v, 0, k - 1);
                assert(line@ =~= strip_cr(v@.subrange(0, k as int)));
            } else {
                extend_range(&mut line, v, 0, k);
                assert(line@ =~= strip_cr(v@.subrange(0, k as int)));
            }
            assert(lines(v@) == seq![strip_cr(v@.subrange(0, k as int))] + lines_from(v@, k + 1));
            Some(line)
        },
        None => {
            let mut line: Vec<char> = Vec::new();
            extend_all(&mut line, v);
            assert(line@ =~= v@.subrange(0, v@.len() as int));
            Some(line)
        },
    }
}


/// Whether two character vectors are equal.
pub fn same_chars(a: &Vec<char>, b: &Vec<char>) -> (r: bool)
    ensures
        r == (a@ == b@),
{
    if a.len() != b.len() {
        return false;
    }
    let mut i: usize = 0;
    while i < a.len()
        invariant
            i <= a.len(),
            a.len() == b.len(),
            forall|k: int| 0 <= k < i ==> a@[k] == b@[k],
        decreases a.len() - i,
    {
        if a[i] != b[i] {
            return false;
        }
        i = i + 1;
    }
    assert(a@ =~= b@);
    true
}

/// Whether a string equals a character vector.
pub fn str_eq_chars(s: &str, b: &Vec<char>) -> (r: bool)
    ensures
        r == (s@ == b@),
{
    let a = chars_of(s);
    same_chars(&a, b)
}


// ---------------------------------------------------------------------------
// Decimal numerals
// ---------------------------------------------------------------------------

/// The digit character for `d < 10`.
pub open spec fn digit_char(d: nat) -> char {
    ((d + 48) as u32) as char
}

/// The decimal numeral of `n`, without leading zeros (std's `Display` for integers).
pub open spec fn decimal(n: nat) -> Seq<char>
    decreases n,
{
    if n < 10 {
        seq![digit_char(n)]
    } else {
        decimal(n / 10).push(digit_char(n % 10))
    }
}

/// The decimal numeral of `n`.
pub fn decimal_string(n: u64) -> (r: String)
    ensures
        r@ == decimal(n as nat),
{
    let mut digits: Vec<char> = Vec::new();
    let mut m = n;
    // digits are collected least significant first
    let ghost mut rest: Seq<char> = Seq::empty();
    loop
        invariant
            decimal(n as nat) == decimal(m as nat) + rest,
            digits@ == rest.reverse(),
        decreases m,
    {
        let d = m % 10;
        let c: char = match d {
            0 => '0',
            1 => '1',
            2 => '2',
            3 => '3',
            4 => '4',
            5 => '5',
            6 => '6',
            7 => '7',
            8 => '8',
            _ => '9',
        };
        assert(c == digit_char(d as nat));
        if m < 10 {
            proof {
                assert(decimal(m as nat) == seq![c]);
                assert(rest.reverse().push(c) =~= (seq![c] + rest).reverse());
            }
            digits.push(c);
            let ghost all = seq![c] + rest;
            let mut r = String::new();
            let mut i = digits.len();
            while i > 0
                invariant
                    i <= digits@.len(),
                    digits@ == all.reverse(),
                    r@ == all.take(digits@.len() - i),
                    all.len() == digits@.len(),
                decreases i,
            {
                push_char(&mut r, digits[i - 1]);
                assert(all.take(digits@.len() - i + 1) =~= all.take(digits@.len() - i).push(
                    all[digits@.len() - i],
                ));
                i = i - 1;
            }
            assert(all.take(all.len() as int) =~= all);
            return r;
        }
        proof {
            assert(decimal(m as nat) == decimal((m / 10) as nat).push(c));
            assert(decimal((m / 10) as nat).push(c) + rest =~= decimal((m / 10) as nat) + (seq![c] + rest));
            assert(rest.reverse().push(c) =~= (seq![c] + rest).reverse());
            rest = seq![c] + rest;
        }
        digits.push(c);
        m = m / 10;
    }
}

} // verus!
