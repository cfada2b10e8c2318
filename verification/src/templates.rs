//! Layout templates and their local sticker assets: template ids, asset
//! file names, `{{asset:id/file}}` placeholders, and the image references
//! collected from a reference page.

use vstd::prelude::*;
use crate::codec::{lowercase, to_lowercase};
use crate::text::{
    chars_of, contains, decimal, decimal_string, extend_all, extend_range, find, find_from,
    find_from_exec, push_str, replace, replace_exec, rfind, rfind_exec, same_chars,
    split, split_bounds, starts_with, starts_with_exec, string_of, string_of_range, trim,
    trim_bounds, delimits,
};

verus! {

/// A character allowed in template ids: ASCII letters and digits, `_` and `-`.
pub open spec fn is_id_char(c: char) -> bool {
    ('a' <= c && c <= 'z') || ('A' <= c && c <= 'Z') || ('0' <= c && c <= '9') || c == '_' || c == '-'
}

/// Whether `c` may appear in a template id.
pub fn id_char(c: char) -> (b: bool)
    ensures
        b == is_id_char(c),
{
    ('a' <= c && c <= 'z') || ('A' <= c && c <= 'Z') || ('0' <= c && c <= '9') || c == '_' || c == '-'
}

/// A template id: non-empty, made of id characters only.
pub open spec fn is_template_id(s: Seq<char>) -> bool {
    s.len() > 0 && forall|i: int| 0 <= i < s.len() ==> is_id_char(#[trigger] s[i])
}

/// Whether `id` is a template id.
pub fn valid_template_id(id: &str) -> (b: bool)
    ensures
        b == is_template_id(id@),
{
    let v = chars_of(id);
    if v.len() == 0 {
        return false;
    }
    let mut i: usize = 0;
    while i < v.len()
        invariant
            i <= v.len(),
            v@ == id@,
            forall|k: int| 0 <= k < i ==> is_id_char(#[trigger] v@[k]),
        decreases v.len() - i,
    {
        if !id_char(v[i]) {
            return false;
        }
        i = i + 1;
    }
    true
}

/// An asset file name: non-empty, not `.` or `..`, without `/` or `\`, made of
/// id characters and dots, and not starting with a dot.
pub open spec fn is_asset_file(s: Seq<char>) -> bool {
    &&& s.len() > 0
    &&& s != seq!['.']
    &&& s != seq!['.', '.']
    &&& !contains(s, seq!['/'])
    &&& !contains(s, seq!['\\'])
    &&& forall|i: int| 0 <= i < s.len() ==> is_id_char(#[trigger] s[i]) || s[i] == '.'
    &&& s[0] != '.'
}

/// Whether `file` is an asset file name.
pub fn valid_asset_file(file: &str) -> (b: bool)
    ensures
        b == is_asset_file(file@),
{
    let v = chars_of(file);
    if v.len() == 0 || v[0] == '.' {
        return false;
    }
    let mut i: usize = 0;
    while i < v.len()
        invariant
            i <= v.len(),
            v@ == file@,
            forall|k: int| 0 <= k < i ==> is_id_char(#[trigger] v@[k]) || v@[k] == '.',
        decreases v.len() - i,
    {
        if !(id_char(v[i]) || v[i] == '.') {
            return false;
        }
        i = i + 1;
    }
    proof {
        assert(v@ != seq!['.']) by {
            assert(v@[0] != '.');
        }
        assert(v@ != seq!['.', '.']) by {
            assert(v@[0] != '.');
        }
        assert(!contains(v@, seq!['/'])) by {
            if contains(v@, seq!['/']) {
                let k = choose|k: int| crate::text::occurs_at(v@, seq!['/'], k);
                assert(v@.subrange(k, k + 1)[0] == v@[k]);
                assert(is_id_char(v@[k]) || v@[k] == '.');
            }
        }
        assert(!contains(v@, seq!['\\'])) by {
            if contains(v@, seq!['\\']) {
                let k = choose|k: int| crate::text::occurs_at(v@, seq!['\\'], k);
                assert(v@.subrange(k, k + 1)[0] == v@[k]);
                assert(is_id_char(v@[k]) || v@[k] == '.');
            }
        }
    }
    true
}

/// `custom_`, the prefix of user-made template ids.
pub open spec fn custom_prefix() -> Seq<char> {
    seq!['c', 'u', 's', 't', 'o', 'm', '_']
}

/// Whether `id` names a user-made template (only those may be deleted or
/// receive uploaded assets).
pub fn is_custom_template(id: &str) -> (b: bool)
    ensures
        b == starts_with(id@, custom_prefix()),
{
    let v = chars_of(id);
    let p = vec!['c', 'u', 's', 't', 'o', 'm', '_'];
    assert(p@ =~= custom_prefix());
    starts_with_exec(&v, &p)
}

/// The id of a new template: the trimmed requested name with every character
/// that is not an id character replaced by `_` (or, when that is empty,
/// the decimal `now`), prefixed with `custom_` unless it already starts so.
pub open spec fn sanitized_id(raw: Seq<char>, now: nat) -> Seq<char> {
    let cleaned = trim(raw).map_values(|c: char| if is_id_char(c) { c } else { '_' });
    let id = if cleaned.len() == 0 { custom_prefix() + decimal(now) } else { cleaned };
    if starts_with(id, custom_prefix()) { id } else { custom_prefix() + id }
}

/// The id of a new template named `raw`, with `now_secs` standing for the
/// current time (see `sanitized_id`).
pub fn sanitize_template_id_at(raw: &str, now_secs: u64) -> (r: String)
    ensures
        r@ == sanitized_id(raw@, now_secs as nat),
{
    let v = chars_of(raw);
    let (a, b) = trim_bounds(&v);
    let ghost t = trim(raw@);
    let mut cleaned: Vec<char> = Vec::new();
    let mut i = a;
    while i < b
        invariant
            a <= i <= b <= v.len(),
            v@ == raw@,
            t == v@.subrange(a as int, b as int),
            cleaned@ == t.take(i - a).map_values(|c: char| if is_id_char(c) { c } else { '_' }),
        decreases b - i,
    {
        let c = v[i];
        let d = if id_char(c) { c } else { '_' };
        cleaned.push(d);
        assert(t.take(i - a + 1) =~= t.take(i - a).push(c));
        assert(cleaned@ =~= t.take(i - a + 1).map_values(|c: char| if is_id_char(c) { c } else { '_' }));
        i = i + 1;
    }
    assert(t.take(b - a) =~= t);
    let prefix = vec!['c', 'u', 's', 't', 'o', 'm', '_'];
    assert(prefix@ =~= custom_prefix());
    let mut id: Vec<char> = Vec::new();
    if cleaned.len() == 0 {
        extend_all(&mut id, &prefix);
        let digits = decimal_string(now_secs);
        let dv = chars_of(digits.as_str());
        extend_all(&mut id, &dv);
    } else {
        id = cleaned;
    }
    if starts_with_exec(&id, &prefix) {
        string_of(&id)
    } else {
        let mut out: Vec<char> = Vec::new();
        extend_all(&mut out, &prefix);
        extend_all(&mut out, &id);
        string_of(&out)
    }
}

/// Seconds since the Unix epoch, from std's `SystemTime::now`; zero if the
/// clock reads earlier. Nothing is claimed of the value.
#[verifier::external_body]
fn unix_now_secs() -> u64 {
    std::time::SystemTime::now().duration_since(std::time::UNIX_EPOCH).unwrap_or_default().as_secs()
}

/// The id of a new template named `raw`, using the current time when the
/// name yields nothing (see `sanitized_id`).
pub fn sanitize_template_id(raw: &str) -> (r: String)
    ensures
        exists|now: nat| r@ == sanitized_id(raw@, now),
{
    let now = unix_now_secs();
    sanitize_template_id_at(raw, now)
}

/// Every id made for a new template is a template id of a user-made template.
pub proof fn law_sanitized_id_is_valid(raw: Seq<char>, now: nat)
    ensures
        is_template_id(sanitized_id(raw, now)),
        starts_with(sanitized_id(raw, now), custom_prefix()),
{
    let cleaned = trim(raw).map_values(|c: char| if is_id_char(c) { c } else { '_' });
    assert forall|i: int| 0 <= i < cleaned.len() implies is_id_char(#[trigger] cleaned[i]) by {}
    lemma_decimal_digits(now);
    let d = decimal(now);
    let id = if cleaned.len() == 0 { custom_prefix() + d } else { cleaned };
    assert forall|i: int| 0 <= i < id.len() implies is_id_char(#[trigger] id[i]) by {
        if cleaned.len() == 0 {
            if i >= 7 {
                assert(id[i] == d[i - 7]);
            }
        }
    }
    if starts_with(id, custom_prefix()) {
    } else {
        let r = custom_prefix() + id;
        assert forall|i: int| 0 <= i < r.len() implies is_id_char(#[trigger] r[i]) by {
            if i >= 7 {
                assert(r[i] == id[i - 7]);
            }
        }
        assert(r.take(7) =~= custom_prefix());
    }
}

/// Decimal numerals are made of ASCII digits and are not empty.
pub proof fn lemma_decimal_digits(n: nat)
    ensures
        decimal(n).len() > 0,
        forall|i: int| 0 <= i < decimal(n).len() ==> '0' <= #[trigger] decimal(n)[i] <= '9',
    decreases n,
{
    if n >= 10 {
        lemma_decimal_digits(n / 10);
    }
}

/// The largest asset a user may upload to a template, in bytes.
pub const MAX_ASSET_UPLOAD_BYTES: usize = 2 * 1024 * 1024;

/// Whether an uploaded asset of `len` bytes is accepted (at most
/// `MAX_ASSET_UPLOAD_BYTES`); a larger one is refused with `单张素材需小于 2 MB`.
pub fn asset_upload_size_ok(len: usize) -> (b: bool)
    ensures
        b == (len <= MAX_ASSET_UPLOAD_BYTES),
{
    len <= MAX_ASSET_UPLOAD_BYTES
}

/// The directory of a template's assets.
pub open spec fn asset_dir_of(id: Seq<char>) -> Seq<char> {
    "prompts/templates/"@ + id + "/assets"@
}

/// The directory of a template's assets (see `asset_dir_of`).
pub fn asset_dir(id: &str) -> (r: String)
    ensures
        r@ == asset_dir_of(id@),
{
    let mut r = String::new();
    push_str(&mut r, "prompts/templates/");
    push_str(&mut r, id);
    push_str(&mut r, "/assets");
    r
}

/// What follows the last `.` of `s`, or all of `s` when it has none
/// (`s.rsplit('.').next()`).
pub open spec fn after_last_dot(s: Seq<char>) -> Seq<char> {
    match rfind(s, seq!['.']) {
        Some(k) => s.skip(k + 1),
        None => s,
    }
}

/// `after_last_dot(v)`.
pub fn after_last_dot_exec(v: &Vec<char>) -> (r: Vec<char>)
    ensures
        r@ == after_last_dot(v@),
{
    let dot = vec!['.'];
    assert(dot@ =~= seq!['.']);
    let mut r: Vec<char> = Vec::new();
    match rfind_exec(v, &dot) {
        Some(k) => {
            extend_range(&mut r, v, k + 1, v.len());
            assert(r@ =~= v@.skip(k + 1));
        },
        None => {
            extend_all(&mut r, v);
            assert(r@ =~= v@);
        },
    }
    r
}

/// The content type of an asset, by what follows its last dot.
pub open spec fn asset_type_of(file: Seq<char>) -> Seq<char> {
    let e = after_last_dot(file);
    if e == seq!['p', 'n', 'g'] {
        "image/png"@
    } else if e == seq!['g', 'i', 'f'] {
        "image/gif"@
    } else if e == seq!['w', 'e', 'b', 'p'] {
        "image/webp"@
    } else if e == seq!['s', 'v', 'g'] {
        "image/svg+xml"@
    } else {
        "image/jpeg"@
    }
}

/// The content type of an asset (see `asset_type_of`).
pub fn asset_content_type(file: &str) -> (r: &'static str)
    ensures
        r@ == asset_type_of(file@),
{
    let v = chars_of(file);
    let e = after_last_dot_exec(&v);
    let png = vec!['p', 'n', 'g'];
    let gif = vec!['g', 'i', 'f'];
    let webp = vec!['w', 'e', 'b', 'p'];
    let svg = vec!['s', 'v', 'g'];
    assert(png@ =~= seq!['p', 'n', 'g']);
    assert(gif@ =~= seq!['g', 'i', 'f']);
    assert(webp@ =~= seq!['w', 'e', 'b', 'p']);
    assert(svg@ =~= seq!['s', 'v', 'g']);
    if same_chars(&e, &png) {
        "image/png"
    } else if same_chars(&e, &gif) {
        "image/gif"
    } else if same_chars(&e, &webp) {
        "image/webp"
    } else if same_chars(&e, &svg) {
        "image/svg+xml"
    } else {
        "image/jpeg"
    }
}

/// The placeholder of an asset in a template.
pub open spec fn asset_placeholder_of(id: Seq<char>, file: Seq<char>) -> Seq<char> {
    "{{asset:"@ + id + seq!['/'] + file + "}}"@
}

/// The placeholder of an asset in a template (see `asset_placeholder_of`).
pub fn asset_placeholder(id: &str, file: &str) -> (r: String)
    ensures
        r@ == asset_placeholder_of(id@, file@),
{
    let mut r = String::new();
    push_str(&mut r, "{{asset:");
    push_str(&mut r, id);
    crate::text::push_char(&mut r, '/');
    push_str(&mut r, file);
    push_str(&mut r, "}}");
    r
}

/// `{{asset:`, the opening of an asset placeholder.
pub open spec fn asset_open() -> Seq<char> {
    seq!['{', '{', 'a', 's', 's', 'e', 't', ':']
}

/// `}}`, the closing of a placeholder.
pub open spec fn placeholder_close() -> Seq<char> {
    seq!['}', '}']
}

/// The asset placeholders of `h` from `pos` on, as (placeholder, id, file):
/// each `{{asset:` is closed by the next `}}`; its inside is split at its
/// first `/` into id and file, both trimmed, and kept when they are a
/// template id and an asset file name.
pub open spec fn asset_refs_from(h: Seq<char>, pos: int) -> Seq<(Seq<char>, Seq<char>, Seq<char>)>
    decreases h.len() - pos,
{
    if pos < 0 || pos > h.len() {
        Seq::empty()
    } else {
        match find_from(h, asset_open(), pos) {
            None => Seq::empty(),
            Some(p) => if !(pos <= p && p + 8 <= h.len()) {
                Seq::empty()
            } else {
                match find_from(h, placeholder_close(), p + 8) {
                    None => Seq::empty(),
                    Some(e) => if !(p + 8 <= e && e + 2 <= h.len()) {
                        Seq::empty()
                    } else {
                        let inside = h.subrange(p + 8, e);
                        let rest = asset_refs_from(h, e + 2);
                        match find(inside, seq!['/']) {
                            Some(sl) => {
                                let id = trim(inside.take(sl));
                                let file = trim(inside.skip(sl + 1));
                                if is_template_id(id) && is_asset_file(file) {
                                    seq![(h.subrange(p, e + 2), id, file)] + rest
                                } else {
                                    rest
                                }
                            },
                            None => rest,
                        }
                    },
                }
            },
        }
    }
}

/// Every placeholder found is at least `{{asset:` and `}}` long.
pub proof fn lemma_asset_refs_placeholders(h: Seq<char>, pos: int)
    ensures
        forall|j: int| 0 <= j < asset_refs_from(h, pos).len() ==> (#[trigger] asset_refs_from(h, pos)[j]).0.len() >= 10,
    decreases h.len() - pos,
{
    if 0 <= pos <= h.len() {
        match find_from(h, asset_open(), pos) {
            None => {},
            Some(p) => if pos <= p && p + 8 <= h.len() {
                match find_from(h, placeholder_close(), p + 8) {
                    None => {},
                    Some(e) => if p + 8 <= e && e + 2 <= h.len() {
                        lemma_asset_refs_placeholders(h, e + 2);
                        let rest = asset_refs_from(h, e + 2);
                        let r = asset_refs_from(h, pos);
                        let inside = h.subrange(p + 8, e);
                        match find(inside, seq!['/']) {
                            Some(sl) => {
                                let id = trim(inside.take(sl));
                                let file = trim(inside.skip(sl + 1));
                                if is_template_id(id) && is_asset_file(file) {
                                    let x = (h.subrange(p, e + 2), id, file);
                                    assert(r == seq![x] + rest);
                                    assert forall|j: int| 0 <= j < r.len() implies (#[trigger] r[j]).0.len() >= 10 by {
                                        if j > 0 {
                                            assert(r[j] == rest[j - 1]);
                                        }
                                    }
                                } else {
                                    assert(r == rest);
                                }
                            },
                            None => {
                                assert(r == rest);
                            },
                        }
                    },
                }
            },
        }
    }
}

/// Every asset placeholder found names a template id and an asset file name,
/// so the files read for it stay inside that template's asset folder.
pub proof fn law_asset_refs_are_valid(h: Seq<char>, pos: int)
    ensures
        forall|j: int| 0 <= j < asset_refs_from(h, pos).len() ==> is_template_id(
            (#[trigger] asset_refs_from(h, pos)[j]).1,
        ) && is_asset_file(asset_refs_from(h, pos)[j].2),
    decreases h.len() - pos,
{
    if 0 <= pos <= h.len() {
        match find_from(h, asset_open(), pos) {
            None => {},
            Some(p) => if pos <= p && p + 8 <= h.len() {
                match find_from(h, placeholder_close(), p + 8) {
                    None => {},
                    Some(e) => if p + 8 <= e && e + 2 <= h.len() {
                        law_asset_refs_are_valid(h, e + 2);
                        let rest = asset_refs_from(h, e + 2);
                        let r = asset_refs_from(h, pos);
                        let inside = h.subrange(p + 8, e);
                        match find(inside, seq!['/']) {
                            Some(sl) => {
                                let id = trim(inside.take(sl));
                                let file = trim(inside.skip(sl + 1));
                                if is_template_id(id) && is_asset_file(file) {
                                    let x = (h.subrange(p, e + 2), id, file);
                                    assert(r == seq![x] + rest);
                                    assert forall|j: int| 0 <= j < r.len() implies is_template_id(
                                        (#[trigger] r[j]).1,
                                    ) && is_asset_file(r[j].2) by {
                                        if j > 0 {
                                            assert(r[j] == rest[j - 1]);
                                        }
                                    }
                                } else {
                                    assert(r == rest);
                                }
                            },
                            None => {
                                assert(r == rest);
                            },
                        }
                    },
                }
            },
        }
    }
}

/// The asset placeholders of an HTML text (see `asset_refs_from`).
pub fn collect_asset_refs(html: &str) -> (r: Vec<(String, String, String)>)
    ensures
        r@.map_values(|t: (String, String, String)| (t.0@, t.1@, t.2@)) == asset_refs_from(html@, 0),
{
    let h = chars_of(html);
    let open = vec!['{', '{', 'a', 's', 's', 'e', 't', ':'];
    let close = vec!['}', '}'];
    let slash = vec!['/'];
    assert(open@ =~= asset_open());
    assert(close@ =~= placeholder_close());
    assert(slash@ =~= seq!['/']);
    let mut out: Vec<(String, String, String)> = Vec::new();
    let mut pos: usize = 0;
    loop
        invariant
            pos <= h.len(),
            h@ == html@,
            open@ == asset_open(),
            close@ == placeholder_close(),
            slash@ == seq!['/'],
            out@.map_values(|t: (String, String, String)| (t.0@, t.1@, t.2@)) + asset_refs_from(h@, pos as int)
                == asset_refs_from(html@, 0),
        decreases h.len() - pos,
    {
        let ghost view_before = out@.map_values(|t: (String, String, String)| (t.0@, t.1@, t.2@));
        let p = match find_from_exec(&h, &open, pos) {
            Some(p) => p,
            None => {
                assert(out@.map_values(|t: (String, String, String)| (t.0@, t.1@, t.2@)) =~= asset_refs_from(html@, 0));
                return out;
            },
        };
        let e = match find_from_exec(&h, &close, p + 8) {
            Some(e) => e,
            None => {
                assert(out@.map_values(|t: (String, String, String)| (t.0@, t.1@, t.2@)) =~= asset_refs_from(html@, 0));
                return out;
            },
        };
        let mut inside: Vec<char> = Vec::new();
        extend_range(&mut inside, &h, p + 8, e);
        match find_from_exec(&inside, &slash, 0) {
            Some(sl) => {
                let mut idv: Vec<char> = Vec::new();
                extend_range(&mut idv, &inside, 0, sl);
                let mut filev: Vec<char> = Vec::new();
                extend_range(&mut filev, &inside, sl + 1, inside.len());
                assert(idv@ =~= inside@.take(sl as int));
                assert(filev@ =~= inside@.skip(sl + 1));
                let (ia, ib) = trim_bounds(&idv);
                let (fa, fb) = trim_bounds(&filev);
                let id = string_of_range(&idv, ia, ib);
                let file = string_of_range(&filev, fa, fb);
                if valid_template_id(id.as_str()) && valid_asset_file(file.as_str()) {
                    let full = string_of_range(&h, p, e + 2);
                    out.push((full, id, file));
                    proof {
                        let nv = out@.map_values(|t: (String, String, String)| (t.0@, t.1@, t.2@));
                        assert(nv =~= view_before.push((h@.subrange(p as int, e + 2), trim(inside@.take(sl as int)), trim(inside@.skip(sl + 1)))));
                        assert(nv + asset_refs_from(h@, e + 2) =~= view_before + asset_refs_from(h@, pos as int));
                    }
                } else {
                }
            },
            None => {},
        }
        pos = e + 2;
    }
}

// ---------------------------------------------------------------------------
// Image references on a reference page
// ---------------------------------------------------------------------------

/// The part of `s` before its first `c` (all of `s` when there is none).
pub open spec fn before_first(s: Seq<char>, c: char) -> Seq<char> {
    match find(s, seq![c]) {
        Some(k) => s.take(k),
        None => s,
    }
}

/// The part of `s` after its first `c`, if it has one.
pub open spec fn after_first(s: Seq<char>, c: char) -> Option<Seq<char>> {
    match find(s, seq![c]) {
        Some(k) => Some(s.skip(k + 1)),
        None => None,
    }
}

/// `before_first(v, c)` and `after_first(v, c)`.
pub fn split_first(v: &Vec<char>, c: char) -> (r: (Vec<char>, Option<Vec<char>>))
    ensures
        r.0@ == before_first(v@, c),
        match after_first(v@, c) {
            Some(a) => r.1 matches Some(x) && x@ == a,
            None => r.1 is None,
        },
{
    let cv = vec![c];
    assert(cv@ =~= seq![c]);
    let mut before: Vec<char> = Vec::new();
    match find_from_exec(v, &cv, 0) {
        Some(k) => {
            extend_range(&mut before, v, 0, k);
            let mut after: Vec<char> = Vec::new();
            extend_range(&mut after, v, k + 1, v.len());
            assert(before@ =~= v@.take(k as int));
            assert(after@ =~= v@.skip(k + 1));
            (before, Some(after))
        },
        None => {
            extend_all(&mut before, v);
            assert(before@ =~= v@);
            (before, None)
        },
    }
}

/// `wx_fmt=`, the query key under which WeChat gives an image's real type.
pub open spec fn wx_fmt_key() -> Seq<char> {
    seq!['w', 'x', '_', 'f', 'm', 't', '=']
}

/// The first item of `ps` that starts with `p`, without that prefix.
pub open spec fn first_with_prefix(ps: Seq<Seq<char>>, p: Seq<char>) -> Option<Seq<char>>
    decreases ps.len(),
{
    if ps.len() == 0 {
        None
    } else if starts_with(ps[0], p) {
        Some(ps[0].skip(p.len() as int))
    } else {
        first_with_prefix(ps.drop_first(), p)
    }
}

/// The query of a URL: what follows its first `?` (empty when there is none).
pub open spec fn query_part(url: Seq<char>) -> Seq<char> {
    match after_first(url, '?') {
        Some(q) => q,
        None => Seq::empty(),
    }
}

/// The image kind of a URL, lowercased: the `wx_fmt` query value (up to a
/// `#`) when there is one, otherwise what follows the last dot of the path
/// (the URL before its first `?`, then before its first `#`).
pub open spec fn image_kind(url: Seq<char>) -> Seq<char> {
    match first_with_prefix(split(query_part(url), seq!['&']), wx_fmt_key()) {
        Some(v) => lowercase(before_first(v, '#')),
        None => lowercase(after_last_dot(before_first(before_first(url, '?'), '#'))),
    }
}

/// The image kind of a URL (see `image_kind`).
pub fn fmt_kind(url: &str) -> (r: String)
    ensures
        r@ == image_kind(url@),
{
    let v = chars_of(url);
    let (before_q, after_q) = split_first(&v, '?');
    let query: Vec<char> = match after_q {
        Some(q) => q,
        None => Vec::new(),
    };
    assert(query@ =~= query_part(url@));
    let amp = vec!['&'];
    assert(amp@ =~= seq!['&']);
    let key = vec!['w', 'x', '_', 'f', 'm', 't', '='];
    assert(key@ =~= wx_fmt_key());
    let parts = split_bounds(&query, &amp);
    let ghost ps = split(query@, seq!['&']);
    let mut i: usize = 0;
    assert(ps.skip(0) =~= ps);
    while i < parts.len()
        invariant
            i <= parts@.len(),
            key@ == wx_fmt_key(),
            query@ == query_part(url@),
            ps == split(query@, seq!['&']),
            delimits(parts@, query@, ps),
            first_with_prefix(ps.skip(i as int), wx_fmt_key()) == first_with_prefix(ps, wx_fmt_key()),
        decreases parts.len() - i,
    {
        let (a, b) = parts[i];
        let mut piece: Vec<char> = Vec::new();
        extend_range(&mut piece, &query, a, b);
        assert(parts@[i as int].0 <= parts@[i as int].1);
        assert(piece@ == ps[i as int]);
        assert(ps.skip(i as int)[0] == ps[i as int]);
        if starts_with_exec(&piece, &key) {
            let mut val: Vec<char> = Vec::new();
            extend_range(&mut val, &piece, 7, piece.len());
            assert(val@ =~= piece@.skip(7));
            assert(wx_fmt_key().len() == 7);
            assert(first_with_prefix(ps.skip(i as int), wx_fmt_key()) == Some(piece@.skip(7)));
            let (before_hash, _) = split_first(&val, '#');
            let s = string_of(&before_hash);
            return to_lowercase(s.as_str());
        }
        assert(ps.skip(i as int).drop_first() =~= ps.skip(i + 1));
        i = i + 1;
    }
    assert(ps.skip(i as int) =~= Seq::<Seq<char>>::empty());
    let (path, _) = split_first(&before_q, '#');
    let ext = after_last_dot_exec(&path);
    let s = string_of(&ext);
    to_lowercase(s.as_str())
}

/// The download URL of an image: the URL before its first `#`, and, for a GIF,
/// without the `tp=webp` query item that makes the server send WebP bytes.
pub open spec fn normalized_image_url(url: Seq<char>) -> Seq<char> {
    let no_frag = before_first(url, '#');
    if image_kind(no_frag) == seq!['g', 'i', 'f'] {
        replace(
            replace(replace(no_frag, "&tp=webp"@, Seq::empty()), "?tp=webp&"@, seq!['?']),
            "&tp=webp&"@,
            seq!['&'],
        )
    } else {
        no_frag
    }
}

/// The download URL of an image (see `normalized_image_url`).
pub fn normalize_img_url(url: &str) -> (r: String)
    ensures
        r@ == normalized_image_url(url@),
{
    let v = chars_of(url);
    let (no_frag, _) = split_first(&v, '#');
    let nf = string_of(&no_frag);
    let kind = fmt_kind(nf.as_str());
    let kv = chars_of(kind.as_str());
    let gif = vec!['g', 'i', 'f'];
    assert(gif@ =~= seq!['g', 'i', 'f']);
    if same_chars(&kv, &gif) {
        proof {
            reveal_strlit("&tp=webp");
            reveal_strlit("?tp=webp&");
            reveal_strlit("&tp=webp&");
        }
        let p1 = chars_of("&tp=webp");
        let p2 = chars_of("?tp=webp&");
        let p3 = chars_of("&tp=webp&");
        let empty: Vec<char> = Vec::new();
        let q = vec!['?'];
        let a = vec!['&'];
        assert(q@ =~= seq!['?']);
        assert(a@ =~= seq!['&']);
        assert(empty@ =~= Seq::<char>::empty());
        let r1 = replace_exec(&no_frag, &p1, &empty);
        let r2 = replace_exec(&r1, &p2, &q);
        let r3 = replace_exec(&r2, &p3, &a);
        string_of(&r3)
    } else {
        nf
    }
}

/// Whether an image from a reference page is a sticker: a GIF, or known to
/// be at most 400 pixels wide.
pub fn is_sticker_candidate(url: &str, width: u32) -> (b: bool)
    ensures
        b == (image_kind(url@) == seq!['g', 'i', 'f'] || (width > 0 && width <= 400)),
{
    let kind = fmt_kind(url);
    let kv = chars_of(kind.as_str());
    let gif = vec!['g', 'i', 'f'];
    assert(gif@ =~= seq!['g', 'i', 'f']);
    same_chars(&kv, &gif) || (width > 0 && width <= 400)
}

} // verus!
