//! Reading a reference page for a style template: where its relative links
//! point, which images it shows (with the size hints WeChat puts on them),
//! and its text with the markup brackets blanked out.

use vstd::prelude::*;
use crate::materials::{safe_prefix, safe_truncate};
use crate::text::{
    chars_of, contains, contains_exec, extend_range, find, find_from_exec, lemma_skip_non_ws, lemma_skip_ws, lemma_utf8_len_subrange, push_str, rfind, rfind_exec,
    skip_non_ws, skip_non_ws_exec, skip_ws_exec, split, split_bounds, starts_with,
    starts_with_exec, str_byte_len, string_of, string_of_range, trim, trim_bounds, utf8_len, words,
    words_from,
};

verus! {

// ---------------------------------------------------------------------------
// Where relative links point
// ---------------------------------------------------------------------------

/// `://`.
pub open spec fn scheme_sep() -> Seq<char> {
    seq![':', '/', '/']
}

/// The part of `url` after its first `://` up to the next one; all of `url`
/// when it has none.
pub open spec fn after_scheme(url: Seq<char>) -> Seq<char> {
    let ps = split(url, scheme_sep());
    if ps.len() >= 2 {
        ps[1]
    } else {
        url
    }
}

/// The byte offset where the origin of `url` ends: counted back from the end
/// of `url` by the byte length of `after_scheme(url)`, then forward to the
/// first `/` in it (or the end of `url` when it has none).
pub open spec fn origin_end(url: Seq<char>) -> int {
    let a = after_scheme(url);
    match find(a, seq!['/']) {
        Some(p) => utf8_len(url) - utf8_len(a) + utf8_len(a.take(p)),
        None => utf8_len(url) as int,
    }
}

/// Whether the origin ends on a character boundary of `url`.
pub open spec fn origin_cuts_cleanly(url: Seq<char>) -> bool {
    utf8_len(safe_prefix(url, origin_end(url))) == origin_end(url)
}

/// The origin of `url`: its first `origin_end(url)` bytes.
pub open spec fn origin_of(url: Seq<char>) -> Seq<char> {
    safe_prefix(url, origin_end(url))
}

/// The directory of `url`: what comes before its last `/`, all of it when it
/// has none.
pub open spec fn page_dir_of(url: Seq<char>) -> Seq<char> {
    match rfind(url, seq!['/']) {
        Some(k) => url.take(k),
        None => url,
    }
}

/// The byte length of a character vector.
fn chars_byte_len(v: &Vec<char>) -> (n: usize)
    ensures
        n == utf8_len(v@),
{
    let s = string_of(v);
    str_byte_len(s.as_str())
}

/// The origin and directory of a page's URL, against which its root-relative
/// and relative links are resolved; `None` when the origin would end inside
/// a character (possible only for a URL with two `://` and non-ASCII text).
pub fn reference_bases(url: &str) -> (r: Option<(String, String)>)
    ensures
        origin_cuts_cleanly(url@) ==> (r matches Some(b) && b.0@ == origin_of(url@) && b.1@ == page_dir_of(url@)),
        !origin_cuts_cleanly(url@) ==> r is None,
{
    let v = chars_of(url);
    let sep = vec![':', '/', '/'];
    assert(sep@ =~= scheme_sep());
    let bounds = split_bounds(&v, &sep);
    let mut a: Vec<char> = Vec::new();
    if bounds.len() >= 2 {
        let (x, y) = bounds[1];
        extend_range(&mut a, &v, x, y);
        proof {
            lemma_utf8_len_subrange(v@, x as int, y as int);
        }
    } else {
        extend_range(&mut a, &v, 0, v.len());
        assert(v@.subrange(0, v@.len() as int) =~= v@);
    }
    assert(a@ == after_scheme(url@));
    let total = str_byte_len(url);
    let slash = vec!['/'];
    assert(slash@ =~= seq!['/']);
    let end: usize = match find_from_exec(&a, &slash, 0) {
        Some(p) => {
            let la = chars_byte_len(&a);
            let mut pre: Vec<char> = Vec::new();
            extend_range(&mut pre, &a, 0, p);
            assert(pre@ =~= a@.take(p as int));
            let lp = chars_byte_len(&pre);
            proof {
                lemma_utf8_len_subrange(a@, 0, p as int);
                assert(a@.subrange(0, p as int) =~= a@.take(p as int));
            }
            total - la + lp
        },
        None => total,
    };
    assert(end == origin_end(url@));
    let origin = safe_truncate(url, end);
    if str_byte_len(origin.as_str()) != end {
        return None;
    }
    let dir = match rfind_exec(&v, &slash) {
        Some(k) => string_of_range(&v, 0, k),
        None => string_of(&v),
    };
    proof {
        if rfind(v@, seq!['/']) is Some {
            assert(v@.subrange(0, rfind(v@, seq!['/'])->0) =~= v@.take(rfind(v@, seq!['/'])->0));
        }
    }
    Some((origin, dir))
}

// ---------------------------------------------------------------------------
// Image tags
// ---------------------------------------------------------------------------

/// The value of attribute `key` in the inside of a tag: after the first
/// `key=`, up to the next quotation mark of the kind that opens it, trimmed.
/// An unquoted value ends at the next occurrence of its own first character,
/// which is at once: it reads as empty.
pub open spec fn img_attr(tag: Seq<char>, key: Seq<char>) -> Option<Seq<char>> {
    let needle = key.push('=');
    match find(tag, needle) {
        None => None,
        Some(sp) => {
            let after = tag.skip(sp + needle.len());
            if after.len() == 0 {
                None
            } else {
                let first = after[0];
                let s = if first == '"' || first == '\'' {
                    after.skip(1)
                } else {
                    after
                };
                match find(s, seq![first]) {
                    Some(end) => Some(trim(s.take(end))),
                    None => None,
                }
            }
        },
    }
}

/// The value of an attribute of a tag (see `img_attr`).
pub fn find_img_attr(tag: &str, key: &str) -> (r: Option<String>)
    ensures
        match img_attr(tag@, key@) {
            Some(x) => r matches Some(y) && y@ == x,
            None => r is None,
        },
{
    let t = chars_of(tag);
    let mut needle = chars_of(key);
    needle.push('=');
    let sp = match find_from_exec(&t, &needle, 0) {
        Some(sp) => sp,
        None => {
            return None;
        },
    };
    let mut after: Vec<char> = Vec::new();
    extend_range(&mut after, &t, sp + needle.len(), t.len());
    assert(after@ =~= t@.skip(sp + needle@.len()));
    if after.len() == 0 {
        return None;
    }
    let first = after[0];
    let mut s: Vec<char> = Vec::new();
    if first == '"' || first == '\'' {
        extend_range(&mut s, &after, 1, after.len());
        assert(s@ =~= after@.skip(1));
    } else {
        extend_range(&mut s, &after, 0, after.len());
        assert(s@ =~= after@);
    }
    let q = vec![first];
    assert(q@ =~= seq![first]);
    let end = match find_from_exec(&s, &q, 0) {
        Some(e) => e,
        None => {
            return None;
        },
    };
    let mut inner: Vec<char> = Vec::new();
    extend_range(&mut inner, &s, 0, end);
    assert(inner@ =~= s@.take(end as int));
    let (a, b) = trim_bounds(&inner);
    Some(string_of_range(&inner, a, b))
}

/// The absolute address of an image source: protocol-relative sources get
/// `https:`, absolute ones are kept, root-relative ones are put after the
/// origin, and the others after the page's directory and a `/`.
pub open spec fn resolve_src(raw: Seq<char>, origin: Seq<char>, dir: Seq<char>) -> Seq<char> {
    if starts_with(raw, seq!['/', '/']) {
        "https:"@ + raw
    } else if starts_with(raw, "http://"@) || starts_with(raw, "https://"@) {
        raw
    } else if starts_with(raw, seq!['/']) {
        origin + raw
    } else {
        dir + seq!['/'] + raw
    }
}

/// Whether an address is a web address.
pub open spec fn is_http(u: Seq<char>) -> bool {
    starts_with(u, "http://"@) || starts_with(u, "https://"@)
}

/// Whether a character is an ASCII digit.
pub open spec fn is_digit(c: char) -> bool {
    '0' <= c && c <= '9'
}

/// The number written by decimal digits.
pub open spec fn digits_value(d: Seq<char>) -> nat
    decreases d.len(),
{
    if d.len() == 0 {
        0
    } else {
        digits_value(d.drop_last()) * 10 + ((d.last() as u32) - 48) as nat
    }
}

/// `s` without one leading `+`.
pub open spec fn unsigned_part(s: Seq<char>) -> Seq<char> {
    if s.len() > 0 && s[0] == '+' {
        s.skip(1)
    } else {
        s
    }
}

/// Whether every character of `d` is a digit.
pub open spec fn all_digits(d: Seq<char>) -> bool {
    forall|i: int| 0 <= i < d.len() ==> is_digit(#[trigger] d[i])
}

/// What std's `str::parse::<u32>` reads: an optional `+`, then one or more
/// decimal digits whose value fits in `u32`.
pub open spec fn parsed_u32(s: Seq<char>) -> Option<u32> {
    let d = unsigned_part(s);
    if d.len() > 0 && all_digits(d) && digits_value(d) <= u32::MAX {
        Some(digits_value(d) as u32)
    } else {
        None
    }
}

proof fn lemma_digits_prefix(d: Seq<char>, k: int)
    requires
        0 <= k <= d.len(),
        forall|i: int| 0 <= i < d.len() ==> is_digit(#[trigger] d[i]),
    ensures
        digits_value(d.take(k)) <= digits_value(d),
    decreases d.len(),
{
    if k < d.len() {
        assert(d.drop_last().take(k) =~= d.take(k));
        lemma_digits_prefix(d.drop_last(), k);
        assert(d.take(d.len() as int) =~= d);
    } else {
        assert(d.take(k) =~= d);
    }
}

/// `parsed_u32(s)`.
pub fn parse_u32(s: &str) -> (r: Option<u32>)
    ensures
        r == parsed_u32(s@),
{
    let v = chars_of(s);
    let start: usize = if v.len() > 0 && v[0] == '+' {
        1
    } else {
        0
    };
    let mut d: Vec<char> = Vec::new();
    extend_range(&mut d, &v, start, v.len());
    assert(d@ =~= unsigned_part(s@));
    let ghost dd = d@;
    if d.len() == 0 {
        return None;
    }
    let mut i: usize = 0;
    while i < d.len()
        invariant
            i <= d.len(),
            dd == d@,
            dd == unsigned_part(s@),
            forall|j: int| 0 <= j < i ==> is_digit(#[trigger] d@[j]),
        decreases d.len() - i,
    {
        if !('0' <= d[i] && d[i] <= '9') {
            assert(!is_digit(dd[i as int]));
            return None;
        }
        i = i + 1;
    }
    let mut val: u64 = 0;
    let mut k: usize = 0;
    assert(d@.take(0) =~= Seq::<char>::empty());
    while k < d.len()
        invariant
            k <= d.len(),
            dd == d@,
            dd == unsigned_part(s@),
            forall|j: int| 0 <= j < d@.len() ==> is_digit(#[trigger] d@[j]),
            val == digits_value(d@.take(k as int)),
            val <= u32::MAX,
        decreases d.len() - k,
    {
        assert(d@.take(k + 1).drop_last() =~= d@.take(k as int));
        assert(d@.take(k + 1).last() == d@[k as int]);
        assert(is_digit(d@[k as int]));
        let digit = (d[k] as u32 - 48) as u64;
        let next = val * 10 + digit;
        assert(next == digits_value(d@.take(k + 1)));
        if next > 0xFFFF_FFFF {
            proof {
                lemma_digits_prefix(d@, k + 1);
            }
            return None;
        }
        val = next;
        k = k + 1;
    }
    assert(d@.take(k as int) =~= d@);
    Some(val as u32)
}

/// An image the page shows: its absolute address, its width hint (0 when
/// absent or unreadable) and the text of its aspect-ratio hint.
pub struct ImageCandidate {
    pub url: String,
    pub w: u32,
    pub ratio: Option<String>,
}

/// The view of an image candidate.
pub open spec fn candidate_view(c: ImageCandidate) -> (Seq<char>, u32, Option<Seq<char>>) {
    (
        c.url@,
        c.w,
        match c.ratio {
            Some(r) => Some(r@),
            None => None,
        },
    )
}

/// The image an `<img` tag's inside names: its source (`data-src`, else
/// `src`) resolved, when that is a web address, with its hints.
pub open spec fn tag_image(tag: Seq<char>, origin: Seq<char>, dir: Seq<char>) -> Option<(Seq<char>, u32, Option<Seq<char>>)> {
    let raw = match img_attr(tag, "data-src"@) {
        Some(x) => Some(x),
        None => img_attr(tag, "src"@),
    };
    match raw {
        None => None,
        Some(r) => {
            let src = resolve_src(r, origin, dir);
            if is_http(src) {
                let w = match img_attr(tag, "data-w"@) {
                    Some(t) => match parsed_u32(t) {
                        Some(n) => n,
                        None => 0,
                    },
                    None => 0,
                };
                Some((src, w, img_attr(tag, "data-ratio"@)))
            } else {
                None
            }
        },
    }
}

/// The largest number of images taken from a page.
pub const MAX_CANDIDATES: usize = 16;

/// The images of `rest`, `n` being already taken: each `<img` tag's inside
/// runs to the next `>` (or is empty when there is none); the scan stops at
/// `MAX_CANDIDATES` images.
pub open spec fn scan_images(rest: Seq<char>, n: nat, origin: Seq<char>, dir: Seq<char>) -> Seq<(Seq<char>, u32, Option<Seq<char>>)>
    decreases rest.len(),
{
    if n >= MAX_CANDIDATES || rest.len() == 0 {
        Seq::empty()
    } else {
        match find(rest, seq!['<', 'i', 'm', 'g']) {
            None => Seq::empty(),
            Some(start) => if 0 <= start && start + 4 <= rest.len() {
                let tail = rest.skip(start + 4);
                let len = match find(tail, seq!['>']) {
                    Some(l) => l,
                    None => 0,
                };
                if 0 <= len <= tail.len() {
                    let tag = tail.take(len);
                    let next = tail.skip(len);
                    match tag_image(tag, origin, dir) {
                        Some(c) => seq![c] + scan_images(next, n + 1, origin, dir),
                        None => scan_images(next, n, origin, dir),
                    }
                } else {
                    Seq::empty()
                }
            } else {
                Seq::empty()
            },
        }
    }
}

/// The image an `<img` tag names (see `tag_image`).
fn tag_image_exec(tag: &str, origin: &str, dir: &str) -> (r: Option<ImageCandidate>)
    ensures
        match tag_image(tag@, origin@, dir@) {
            Some(c) => r matches Some(x) && candidate_view(x) == c,
            None => r is None,
        },
{
    let raw = match find_img_attr(tag, "data-src") {
        Some(x) => Some(x),
        None => find_img_attr(tag, "src"),
    };
    let raw = match raw {
        Some(r) => r,
        None => {
            return None;
        },
    };
    let rv = chars_of(raw.as_str());
    let pp = vec!['/', '/'];
    let http = chars_of("http://");
    let https = chars_of("https://");
    let root = vec!['/'];
    assert(pp@ =~= seq!['/', '/']);
    assert(root@ =~= seq!['/']);
    let mut src = String::new();
    if starts_with_exec(&rv, &pp) {
        push_str(&mut src, "https:");
        push_str(&mut src, raw.as_str());
    } else if starts_with_exec(&rv, &http) || starts_with_exec(&rv, &https) {
        push_str(&mut src, raw.as_str());
    } else if starts_with_exec(&rv, &root) {
        push_str(&mut src, origin);
        push_str(&mut src, raw.as_str());
    } else {
        push_str(&mut src, dir);
        push_str(&mut src, "/");
        push_str(&mut src, raw.as_str());
        proof {
            reveal_strlit("/");
        }
    }
    assert(src@ =~= resolve_src(raw@, origin@, dir@));
    let sv = chars_of(src.as_str());
    if !(starts_with_exec(&sv, &http) || starts_with_exec(&sv, &https)) {
        return None;
    }
    let w = match find_img_attr(tag, "data-w") {
        Some(t) => match parse_u32(t.as_str()) {
            Some(n) => n,
            None => 0,
        },
        None => 0,
    };
    let ratio = find_img_attr(tag, "data-ratio");
    Some(ImageCandidate { url: src, w, ratio })
}

/// The images of a page's HTML (see `scan_images`), with links resolved
/// against the page's origin and directory.
pub fn scan_page_images(html: &Vec<char>, origin: &str, dir: &str) -> (r: Vec<ImageCandidate>)
    ensures
        r@.map_values(|c: ImageCandidate| candidate_view(c)) == scan_images(html@, 0, origin@, dir@),
{
    let open = vec!['<', 'i', 'm', 'g'];
    let gt = vec!['>'];
    assert(open@ =~= seq!['<', 'i', 'm', 'g']);
    assert(gt@ =~= seq!['>']);
    let mut out: Vec<ImageCandidate> = Vec::new();
    let mut rest: Vec<char> = Vec::new();
    extend_range(&mut rest, html, 0, html.len());
    assert(rest@ =~= html@);
    loop
        invariant
            open@ == seq!['<', 'i', 'm', 'g'],
            gt@ == seq!['>'],
            out@.len() <= MAX_CANDIDATES,
            out@.map_values(|c: ImageCandidate| candidate_view(c)) + scan_images(rest@, out@.len(), origin@, dir@)
                == scan_images(html@, 0, origin@, dir@),
        decreases rest.len(),
    {
        let ghost before = out@.map_values(|c: ImageCandidate| candidate_view(c));
        if out.len() >= MAX_CANDIDATES || rest.len() == 0 {
            assert(before =~= scan_images(html@, 0, origin@, dir@));
            return out;
        }
        let start = match find_from_exec(&rest, &open, 0) {
            Some(p) => p,
            None => {
                assert(before =~= scan_images(html@, 0, origin@, dir@));
                return out;
            },
        };
        let mut tail: Vec<char> = Vec::new();
        extend_range(&mut tail, &rest, start + 4, rest.len());
        assert(tail@ =~= rest@.skip(start + 4));
        let len = match find_from_exec(&tail, &gt, 0) {
            Some(l) => l,
            None => 0,
        };
        let tag = string_of_range(&tail, 0, len);
        let mut next: Vec<char> = Vec::new();
        extend_range(&mut next, &tail, len, tail.len());
        assert(tag@ =~= tail@.take(len as int));
        assert(next@ =~= tail@.skip(len as int));
        match tag_image_exec(tag.as_str(), origin, dir) {
            Some(c) => {
                out.push(c);
                proof {
                    let nv = out@.map_values(|c: ImageCandidate| candidate_view(c));
                    assert(nv =~= before.push(candidate_view(c)));
                    assert(nv + scan_images(next@, out@.len(), origin@, dir@) =~= before + (seq![candidate_view(c)]
                        + scan_images(next@, out@.len(), origin@, dir@)));
                }
            },
            None => {},
        }
        rest = next;
    }
}

// ---------------------------------------------------------------------------
// The page's text
// ---------------------------------------------------------------------------

/// Whether the end of `h` lies inside a tag: a `<` was seen and no `>` after it.
pub open spec fn in_tag_after(h: Seq<char>) -> bool
    decreases h.len(),
{
    if h.len() == 0 {
        false
    } else if h.last() == '<' {
        true
    } else if h.last() == '>' {
        false
    } else {
        in_tag_after(h.drop_last())
    }
}

/// `h` with its markup dropped: each `<` and `>` becomes a space and what
/// stands between a `<` and the next `>` is left out.
pub open spec fn strip_tags(h: Seq<char>) -> Seq<char>
    decreases h.len(),
{
    if h.len() == 0 {
        Seq::empty()
    } else {
        let p = h.drop_last();
        let c = h.last();
        strip_tags(p) + if c == '<' || c == '>' {
            seq![' ']
        } else if in_tag_after(p) {
            Seq::<char>::empty()
        } else {
            seq![c]
        }
    }
}

/// Words joined by single spaces.
pub open spec fn join_words(ws: Seq<Seq<char>>) -> Seq<char>
    decreases ws.len(),
{
    if ws.len() == 0 {
        Seq::empty()
    } else if ws.len() == 1 {
        ws[0]
    } else {
        join_words(ws.drop_last()) + seq![' '] + ws.last()
    }
}

/// The most characters of page text kept.
pub const PAGE_TEXT_CHARS: usize = 3000;

/// The text of a page: its words once each tag is replaced by a space,
/// joined by single spaces and cut to `PAGE_TEXT_CHARS` characters.
pub open spec fn page_text(h: Seq<char>) -> Seq<char> {
    let j = join_words(words(strip_tags(h)));
    if j.len() > PAGE_TEXT_CHARS {
        j.take(PAGE_TEXT_CHARS as int)
    } else {
        j
    }
}

/// The text of a page's HTML (see `page_text`).
pub fn page_plain_text(html: &Vec<char>) -> (r: String)
    ensures
        r@ == page_text(html@),
{
    let mut v: Vec<char> = Vec::new();
    let mut in_tag = false;
    let mut k: usize = 0;
    while k < html.len()
        invariant
            k <= html.len(),
            v@ == strip_tags(html@.take(k as int)),
            in_tag == in_tag_after(html@.take(k as int)),
        decreases html.len() - k,
    {
        let c = html[k];
        proof {
            assert(html@.take(k + 1).drop_last() =~= html@.take(k as int));
            assert(html@.take(k + 1).last() == c);
        }
        if c == '<' {
            v.push(' ');
            in_tag = true;
        } else if c == '>' {
            v.push(' ');
            in_tag = false;
        } else if !in_tag {
            v.push(c);
        }
        proof {
            if c != '<' && c != '>' && in_tag {
                assert(v@ =~= strip_tags(html@.take(k as int)) + Seq::<char>::empty());
            }
        }
        k = k + 1;
    }
    assert(html@.take(k as int) =~= html@);
    let mut out: Vec<char> = Vec::new();
    let ghost mut done: Seq<Seq<char>> = Seq::empty();
    let mut first = true;
    let mut i: usize = 0;
    loop
        invariant
            i <= v.len(),
            first == (done.len() == 0),
            v@ == strip_tags(html@),
            words(v@) == done + words_from(v@, i as int),
            out@ == join_words(done),
        ensures
            v@ == strip_tags(html@),
            out@ == join_words(words(v@)),
        decreases v.len() - i,
    {
        let a = skip_ws_exec(&v, i);
        proof {
            lemma_skip_ws(v@, i as int);
        }
        if a >= v.len() {
            proof {
                assert(words_from(v@, i as int) =~= Seq::<Seq<char>>::empty());
                assert(done + Seq::<Seq<char>>::empty() =~= done);
            }
            break;
        }
        let b = skip_non_ws_exec(&v, a);
        proof {
            lemma_skip_non_ws(v@, a as int + 1);
            assert(skip_non_ws(v@, a as int) == skip_non_ws(v@, a as int + 1));
        }
        let ghost w = v@.subrange(a as int, b as int);
        if !first {
            out.push(' ');
        }
        first = false;
        extend_range(&mut out, &v, a, b);
        proof {
            assert(words_from(v@, i as int) == seq![w] + words_from(v@, b as int));
            assert(done.push(w).drop_last() =~= done);
            if done.len() > 0 {
                assert(out@ =~= join_words(done) + seq![' '] + w);
            } else {
                assert(out@ =~= w);
            }
            assert(done + words_from(v@, i as int) =~= done.push(w) + words_from(v@, b as int));
            done = done.push(w);
        }
        i = b;
    }
    let n = if out.len() > PAGE_TEXT_CHARS {
        PAGE_TEXT_CHARS
    } else {
        out.len()
    };
    let r = string_of_range(&out, 0, n);
    assert(r@ =~= page_text(html@));
    r
}

// ---------------------------------------------------------------------------
// The page as a whole
// ---------------------------------------------------------------------------

/// A reference page: its text and its images.
pub struct ReferencePage {
    pub text: String,
    pub images: Vec<ImageCandidate>,
}

/// Whether the page is WeChat's verification wall or a refusal.
pub open spec fn page_blocked(h: Seq<char>) -> bool {
    contains(h, "环境异常"@) || contains(h, "该内容暂时无法浏览"@) || contains(h, "request denied"@)
}

/// The text and images of a fetched reference page: an error for a page
/// behind the verification wall with no image and under 800 characters of
/// text, or for any page with no image and under 200 characters of text.
pub fn read_reference_page(html: &str, origin: &str, dir: &str) -> (r: Result<ReferencePage, String>)
    ensures
        ({
            let imgs = scan_images(html@, 0, origin@, dir@);
            let t = page_text(html@);
            &&& (page_blocked(html@) && imgs.len() == 0 && t.len() < 800) ==> (r matches Err(m) && m@
                == "该链接被微信要求安全验证，抓不到正文和贴纸。请把文章正文直接粘贴到「风格描述」里，或换一篇可以直接打开的文章链接"@)
            &&& !(page_blocked(html@) && imgs.len() == 0 && t.len() < 800) && t.len() < 200 && imgs.len() == 0
                ==> (r matches Err(m) && m@ == "参考页面内容过少（可能是保护页或空页），请换链接或直接粘贴正文"@)
            &&& !(page_blocked(html@) && imgs.len() == 0 && t.len() < 800) && !(t.len() < 200 && imgs.len() == 0)
                ==> (r matches Ok(p) && p.text@ == t && p.images@.map_values(|c: ImageCandidate| candidate_view(c))
                == imgs)
        }),
{
    let v = chars_of(html);
    let images = scan_page_images(&v, origin, dir);
    let text = page_plain_text(&v);
    let n = chars_of(text.as_str()).len();
    let blocked = contains_exec(&v, &chars_of("环境异常")) || contains_exec(&v, &chars_of("该内容暂时无法浏览"))
        || contains_exec(&v, &chars_of("request denied"));
    if blocked && images.len() == 0 && n < 800 {
        return Err(
            "该链接被微信要求安全验证，抓不到正文和贴纸。请把文章正文直接粘贴到「风格描述」里，或换一篇可以直接打开的文章链接".to_owned(),
        );
    }
    if n < 200 && images.len() == 0 {
        return Err("参考页面内容过少（可能是保护页或空页），请换链接或直接粘贴正文".to_owned());
    }
    Ok(ReferencePage { text, images })
}

} // verus!
