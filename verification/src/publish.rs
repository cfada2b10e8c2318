//! Publishing a laid-out article as a draft: the title, the cover photo, the
//! markup of the uploaded images and the compressed body the draft endpoint
//! accepts.

use vstd::prelude::*;
use crate::materials::{safe_prefix, safe_truncate};
use crate::codec::{base64_bytes};
use crate::dataurl::{data_url_parts, header_type, parse_data_url, DataUrlError};
use crate::materials::PhotoEntry;
use crate::templates::{
    after_last_dot, after_last_dot_exec, asset_content_type, asset_refs_from, asset_type_of,
    collect_asset_refs, lemma_asset_refs_placeholders, placeholder_close,
};
use crate::text::{decimal, decimal_string, push_chars};
use crate::text::{
    lemma_find, lemma_find_from, chars_of, extend_range, find, find_from, find_from_exec, is_whitespace, is_ws, lines,
    lines_from, push_str, replace, replace_exec, starts_with, starts_with_exec, str_byte_len,
    string_of, string_of_range, strip_cr, trim, trim_bounds, utf8_len, contains, occurs_at,
    lemma_find_exact,
};

verus! {

// ---------------------------------------------------------------------------
// Titles
// ---------------------------------------------------------------------------

/// Whether a trimmed line of a model reply can be the title: it is not empty
/// and does not start a heading, a list item or a quote.
pub open spec fn is_title_line(l: Seq<char>) -> bool {
    l.len() > 0 && l[0] != '#' && l[0] != '-' && l[0] != '*' && l[0] != '>'
}

/// The first line, trimmed, that can be the title.
pub open spec fn first_title_line(ls: Seq<Seq<char>>) -> Option<Seq<char>>
    decreases ls.len(),
{
    if ls.len() == 0 {
        None
    } else if is_title_line(trim(ls[0])) {
        Some(trim(ls[0]))
    } else {
        first_title_line(ls.drop_first())
    }
}

/// `s` without the lenticular brackets `【` and `】` at its start.
pub open spec fn skip_title_brackets(s: Seq<char>) -> Seq<char>
    decreases s.len(),
{
    if s.len() > 0 && (s[0] == '【' || s[0] == '】') {
        skip_title_brackets(s.drop_first())
    } else {
        s
    }
}

/// The line of a reply that holds the title: the first usable line, or the
/// whole reply trimmed, without leading lenticular brackets.
pub open spec fn title_line(raw: Seq<char>) -> Seq<char> {
    skip_title_brackets(
        match first_title_line(lines(raw)) {
            Some(l) => l,
            None => trim(raw),
        },
    )
}

/// The marks and prefixes removed from a title, in the order they are removed.
pub open spec fn title_noise() -> Seq<Seq<char>> {
    seq![
        seq!['《'],
        seq!['》'],
        seq!['「'],
        seq!['」'],
        seq!['"'],
        seq!['\''],
        seq!['标', '题', '：'],
        seq!['标', '题', ':'],
        seq!['题', '目', '：'],
        seq!['题', '目', ':'],
        seq!['标', '题', '为', '：'],
    ]
}

/// `s` with every occurrence of each pattern removed, one pattern after the other.
pub open spec fn remove_all(s: Seq<char>, ps: Seq<Seq<char>>) -> Seq<char>
    decreases ps.len(),
{
    if ps.len() == 0 {
        s
    } else {
        remove_all(replace(s, ps[0], Seq::empty()), ps.drop_first())
    }
}

/// Punctuation (and the plain space) that may not end a title.
pub open spec fn is_title_tail(c: char) -> bool {
    c == '。' || c == '.' || c == '！' || c == '？' || c == '?' || c == '，' || c == ',' || c == ' '
}

/// `s` without trailing title punctuation.
pub open spec fn strip_title_tail(s: Seq<char>) -> Seq<char>
    decreases s.len(),
{
    if s.len() > 0 && is_title_tail(s.last()) {
        strip_title_tail(s.drop_last())
    } else {
        s
    }
}

/// The title used when the reply leaves fewer than two characters.
pub open spec fn untitled() -> Seq<char> {
    seq!['未', '命', '名', '文', '章']
}

/// The title made from a model reply: the title line without quotation marks,
/// title prefixes and trailing punctuation, cut to 20 characters; a result
/// shorter than two characters becomes `未命名文章`.
pub open spec fn clean_title(raw: Seq<char>) -> Seq<char> {
    let t = strip_title_tail(trim(remove_all(title_line(raw), title_noise())));
    let t = if t.len() > 20 {
        t.take(20)
    } else {
        t
    };
    if t.len() < 2 {
        untitled()
    } else {
        t
    }
}

/// A title made from a reply has between 2 and 20 characters.
pub proof fn law_title_length(raw: Seq<char>)
    ensures
        2 <= clean_title(raw).len() <= 20,
{
}

/// `first_title_line(lines(v))`.
fn first_title_line_exec(v: &Vec<char>) -> (r: Option<Vec<char>>)
    ensures
        match first_title_line(lines(v@)) {
            Some(l) => r matches Some(x) && x@ == l,
            None => r is None,
        },
{
    let nl = vec!['\n'];
    assert(nl@ =~= seq!['\n']);
    let mut i: usize = 0;
    loop
        invariant
            i <= v.len(),
            nl@ == seq!['\n'],
            first_title_line(lines(v@)) == first_title_line(lines_from(v@, i as int)),
        decreases v.len() - i,
    {
        if i >= v.len() {
            return None;
        }
        let (end, next, found) = match find_from_exec(v, &nl, i) {
            Some(k) => (k, k + 1, true),
            None => (v.len(), v.len(), false),
        };
        let mut piece: Vec<char> = Vec::new();
        if found && end > i && v[end - 1] == '\r' {
            extend_range(&mut piece, v, i, end - 1);
        } else {
            extend_range(&mut piece, v, i, end);
        }
        let ghost ls = lines_from(v@, i as int);
        proof {
            if found {
                assert(piece@ =~= strip_cr(v@.subrange(i as int, end as int)));
                assert(ls == seq![strip_cr(v@.subrange(i as int, end as int))] + lines_from(v@, next as int));
            } else {
                assert(piece@ =~= v@.subrange(i as int, end as int));
                assert(ls == seq![v@.subrange(i as int, end as int)]);
            }
            assert(ls[0] == piece@);
        }
        let (a, b) = trim_bounds(&piece);
        let first_ok = b > a && piece[a] != '#' && piece[a] != '-' && piece[a] != '*' && piece[a] != '>';
        let mut line: Vec<char> = Vec::new();
        extend_range(&mut line, &piece, a, b);
        assert(line@ =~= trim(piece@));
        proof {
            if line@.len() > 0 {
                assert(line@[0] == piece@[a as int]);
            }
        }
        if first_ok {
            return Some(line);
        }
        if next == v.len() {
            proof {
                if found {
                    assert(lines_from(v@, next as int) == Seq::<Seq<char>>::empty());
                }
                assert(ls.drop_first() =~= Seq::<Seq<char>>::empty());
                assert(first_title_line(ls.drop_first()) is None);
                assert(!is_title_line(trim(ls[0])));
                assert(first_title_line(ls) is None);
            }
            return None;
        }
        proof {
            assert(ls.drop_first() =~= lines_from(v@, next as int));
        }
        i = next;
    }
}

/// Removes every occurrence of each of `pats` from `v`, one pattern after the other.
fn remove_patterns(v: Vec<char>, pats: &Vec<Vec<char>>) -> (r: Vec<char>)
    requires
        forall|j: int| 0 <= j < pats@.len() ==> (#[trigger] pats@[j])@.len() > 0,
    ensures
        r@ == remove_all(v@, pats@.map_values(|p: Vec<char>| p@)),
{
    let ghost ps = pats@.map_values(|p: Vec<char>| p@);
    let empty: Vec<char> = Vec::new();
    let mut t = v;
    let mut i: usize = 0;
    assert(ps.skip(0) =~= ps);
    while i < pats.len()
        invariant
            i <= pats.len(),
            ps == pats@.map_values(|p: Vec<char>| p@),
            empty@ == Seq::<char>::empty(),
            forall|j: int| 0 <= j < pats@.len() ==> (#[trigger] pats@[j])@.len() > 0,
            remove_all(v@, ps) == remove_all(t@, ps.skip(i as int)),
        decreases pats.len() - i,
    {
        assert(ps.skip(i as int)[0] == pats@[i as int]@);
        assert(ps.skip(i as int).drop_first() =~= ps.skip(i + 1));
        t = replace_exec(&t, &pats[i], &empty);
        i = i + 1;
    }
    assert(ps.skip(i as int) =~= Seq::<Seq<char>>::empty());
    t
}

/// The title of a draft made from a model reply (see `clean_title`).
pub fn sanitize_title(raw: &str) -> (t: String)
    ensures
        t@ == clean_title(raw@),
{
    let v = chars_of(raw);
    let line = match first_title_line_exec(&v) {
        Some(l) => l,
        None => {
            let (a, b) = trim_bounds(&v);
            let mut l: Vec<char> = Vec::new();
            extend_range(&mut l, &v, a, b);
            l
        },
    };
    let ghost chosen = line@;
    assert(chosen.skip(0) =~= chosen);
    let mut s: usize = 0;
    while s < line.len() && (line[s] == '【' || line[s] == '】')
        invariant
            s <= line.len(),
            line@ == chosen,
            skip_title_brackets(chosen) == skip_title_brackets(chosen.skip(s as int)),
        decreases line.len() - s,
    {
        assert(chosen.skip(s as int).drop_first() =~= chosen.skip(s + 1));
        s = s + 1;
    }
    let mut core: Vec<char> = Vec::new();
    extend_range(&mut core, &line, s, line.len());
    assert(core@ =~= chosen.skip(s as int));
    assert(core@ == title_line(raw@));
    let pats: Vec<Vec<char>> = vec![
        vec!['《'],
        vec!['》'],
        vec!['「'],
        vec!['」'],
        vec!['"'],
        vec!['\''],
        vec!['标', '题', '：'],
        vec!['标', '题', ':'],
        vec!['题', '目', '：'],
        vec!['题', '目', ':'],
        vec!['标', '题', '为', '：'],
    ];
    assert(pats@[0]@ =~= title_noise()[0]);
    assert(pats@[1]@ =~= title_noise()[1]);
    assert(pats@[2]@ =~= title_noise()[2]);
    assert(pats@[3]@ =~= title_noise()[3]);
    assert(pats@[4]@ =~= title_noise()[4]);
    assert(pats@[5]@ =~= title_noise()[5]);
    assert(pats@[6]@ =~= title_noise()[6]);
    assert(pats@[7]@ =~= title_noise()[7]);
    assert(pats@[8]@ =~= title_noise()[8]);
    assert(pats@[9]@ =~= title_noise()[9]);
    assert(pats@[10]@ =~= title_noise()[10]);
    assert(pats@.map_values(|p: Vec<char>| p@) =~= title_noise());
    let cleaned = remove_patterns(core, &pats);
    let (a, b) = trim_bounds(&cleaned);
    let ghost trimmed = cleaned@.subrange(a as int, b as int);
    let mut e = b;
    while e > a && (cleaned[e - 1] == '。' || cleaned[e - 1] == '.' || cleaned[e - 1] == '！'
        || cleaned[e - 1] == '？' || cleaned[e - 1] == '?' || cleaned[e - 1] == '，'
        || cleaned[e - 1] == ',' || cleaned[e - 1] == ' ')
        invariant
            a <= e <= b <= cleaned.len(),
            trimmed == cleaned@.subrange(a as int, b as int),
            strip_title_tail(trimmed) == strip_title_tail(cleaned@.subrange(a as int, e as int)),
        decreases e,
    {
        assert(cleaned@.subrange(a as int, e as int).drop_last() =~= cleaned@.subrange(a as int, e - 1));
        e = e - 1;
    }
    proof {
        if e > a {
            assert(cleaned@.subrange(a as int, e as int).last() == cleaned@[e - 1]);
        }
    }
    let end = if e - a > 20 { a + 20 } else { e };
    assert(end - a <= 20);
    let t = string_of_range(&cleaned, a, end);
    proof {
        let st = cleaned@.subrange(a as int, e as int);
        assert(strip_title_tail(trimmed) == st);
        if e - a > 20 {
            assert(t@ =~= st.take(20));
        } else {
            assert(t@ =~= st);
        }
    }
    proof {
        assert(cleaned@ == remove_all(title_line(raw@), title_noise()));
        assert(trimmed == trim(cleaned@));
    }
    if end - a < 2 {
        proof {
            reveal_strlit("未命名文章");
        }
        "未命名文章".to_owned()
    } else {
        t
    }
}

/// The part of a draft given to the model to title it: its first 500 characters.
pub fn title_source(draft: &str) -> (r: String)
    ensures
        r@ == (if draft@.len() > 500 { draft@.take(500) } else { draft@ }),
{
    let v = chars_of(draft);
    let n = if v.len() > 500 { 500 } else { v.len() };
    let r = string_of_range(&v, 0, n);
    assert(r@ =~= (if draft@.len() > 500 { draft@.take(500) } else { draft@ }));
    r
}

// ---------------------------------------------------------------------------
// The body sent to the draft endpoint
// ---------------------------------------------------------------------------

/// The largest body, in bytes, the draft endpoint is sent.
pub const MAX_BODY_BYTES: usize = 19000;

/// `s` with its blocks from `open` to the next `close` cut out: each time
/// the first remaining `open` is searched again from the start, until there
/// is none or it is not closed.
pub open spec fn strip_blocks(s: Seq<char>, open: Seq<char>, close: Seq<char>) -> Seq<char>
    decreases s.len(),
{
    match find(s, open) {
        None => s,
        Some(i) => match find_from(s, close, i) {
            None => s,
            Some(j) => if 0 <= i <= j && j + close.len() <= s.len() && close.len() > 0 {
                strip_blocks(s.take(i) + s.skip(j + close.len()), open, close)
            } else {
                s
            },
        },
    }
}

/// Once blocks are cut out, an `open` that is left has no `close` after it.
pub proof fn law_no_closed_block_left(s: Seq<char>, open: Seq<char>, close: Seq<char>)
    requires
        close.len() > 0,
    ensures
        match find(strip_blocks(s, open, close), open) {
            None => true,
            Some(i) => find_from(strip_blocks(s, open, close), close, i) is None,
        },
    decreases s.len(),
{
    match find(s, open) {
        None => {},
        Some(i) => {
            lemma_find(s, open);
            match find_from(s, close, i) {
                None => {},
                Some(j) => {
                    lemma_find_from(s, close, i);
                    law_no_closed_block_left(s.take(i) + s.skip(j + close.len()), open, close);
                },
            }
        },
    }
}

/// `s` with each run of whitespace replaced by one space.
pub open spec fn collapse_ws(s: Seq<char>) -> Seq<char>
    decreases s.len(),
{
    if s.len() == 0 {
        Seq::empty()
    } else {
        let prev = collapse_ws(s.drop_last());
        if !is_ws(s.last()) {
            prev.push(s.last())
        } else if s.len() >= 2 && is_ws(s[s.len() - 2]) {
            prev
        } else {
            prev.push(' ')
        }
    }
}

/// `<style`, `</style>`, `<!--` and `-->`.
pub open spec fn style_open() -> Seq<char> {
    seq!['<', 's', 't', 'y', 'l', 'e']
}

pub open spec fn style_close() -> Seq<char> {
    seq!['<', '/', 's', 't', 'y', 'l', 'e', '>']
}

pub open spec fn comment_open() -> Seq<char> {
    seq!['<', '!', '-', '-']
}

pub open spec fn comment_close() -> Seq<char> {
    seq!['-', '-', '>']
}

/// An HTML body without style blocks and comments, with whitespace runs
/// collapsed to one space and the spaces between two tags removed.
pub open spec fn compressed(h: Seq<char>) -> Seq<char> {
    let no_style = strip_blocks(h, style_open(), style_close());
    let no_comment = strip_blocks(no_style, comment_open(), comment_close());
    replace(collapse_ws(no_comment), seq!['>', ' ', '<'], seq!['>', '<'])
}

/// Whether the compressed body either fits in the byte limit or has a
/// character boundary exactly at the limit, where it is cut.
pub open spec fn cuts_cleanly(h: Seq<char>) -> bool {
    let c = compressed(h);
    utf8_len(c) <= MAX_BODY_BYTES || utf8_len(safe_prefix(c, MAX_BODY_BYTES as int)) == MAX_BODY_BYTES
}

/// `strip_blocks(v, open, close)`.
fn strip_blocks_exec(v: Vec<char>, open: &Vec<char>, close: &Vec<char>) -> (r: Vec<char>)
    requires
        close.len() > 0,
    ensures
        r@ == strip_blocks(v@, open@, close@),
{
    let ghost start = v@;
    let mut r = v;
    loop
        invariant
            close.len() > 0,
            start == v@,
            strip_blocks(start, open@, close@) == strip_blocks(r@, open@, close@),
        decreases r.len(),
    {
        let i = match find_from_exec(&r, open, 0) {
            Some(i) => i,
            None => {
                return r;
            },
        };
        let j = match find_from_exec(&r, close, i) {
            Some(j) => j,
            None => {
                return r;
            },
        };
        let mut n: Vec<char> = Vec::new();
        extend_range(&mut n, &r, 0, i);
        extend_range(&mut n, &r, j + close.len(), r.len());
        assert(n@ =~= r@.take(i as int) + r@.skip(j + close@.len()));
        r = n;
    }
}

/// `collapse_ws(v)`.
fn collapse_ws_exec(v: &Vec<char>) -> (r: Vec<char>)
    ensures
        r@ == collapse_ws(v@),
{
    let mut out: Vec<char> = Vec::new();
    let mut sp = false;
    let mut i: usize = 0;
    assert(v@.take(0) =~= Seq::<char>::empty());
    while i < v.len()
        invariant
            i <= v.len(),
            out@ == collapse_ws(v@.take(i as int)),
            sp == (i > 0 && is_ws(v@[i - 1])),
        decreases v.len() - i,
    {
        let c = v[i];
        assert(v@.take(i + 1).drop_last() =~= v@.take(i as int));
        assert(v@.take(i + 1).last() == c);
        if is_whitespace(c) {
            if !sp {
                out.push(' ');
                sp = true;
            }
        } else {
            out.push(c);
            sp = false;
        }
        i = i + 1;
    }
    assert(v@.take(i as int) =~= v@);
    out
}

/// `compressed(h)` as a string.
fn compressed_string(html: &str) -> (r: String)
    ensures
        r@ == compressed(html@),
{
    let v = chars_of(html);
    let so = vec!['<', 's', 't', 'y', 'l', 'e'];
    let sc = vec!['<', '/', 's', 't', 'y', 'l', 'e', '>'];
    let co = vec!['<', '!', '-', '-'];
    let cc = vec!['-', '-', '>'];
    assert(so@ =~= style_open());
    assert(sc@ =~= style_close());
    assert(co@ =~= comment_open());
    assert(cc@ =~= comment_close());
    let a = strip_blocks_exec(v, &so, &sc);
    let b = strip_blocks_exec(a, &co, &cc);
    let c = collapse_ws_exec(&b);
    let gap = vec!['>', ' ', '<'];
    let joined = vec!['>', '<'];
    assert(gap@ =~= seq!['>', ' ', '<']);
    assert(joined@ =~= seq!['>', '<']);
    let d = replace_exec(&c, &gap, &joined);
    string_of(&d)
}

/// The body sent to the draft endpoint: `html` compressed (see
/// `compressed`) and cut to `MAX_BODY_BYTES` bytes.
pub fn compress_html(html: &str) -> (r: String)
    requires
        cuts_cleanly(html@),
    ensures
        r@ == safe_prefix(compressed(html@), MAX_BODY_BYTES as int),
        utf8_len(r@) <= MAX_BODY_BYTES,
        utf8_len(compressed(html@)) <= MAX_BODY_BYTES ==> r@ == compressed(html@),
        utf8_len(compressed(html@)) > MAX_BODY_BYTES ==> utf8_len(r@) == MAX_BODY_BYTES,
{
    let c = compressed_string(html);
    safe_truncate(c.as_str(), MAX_BODY_BYTES)
}

/// `compress_html(html)` where the cut falls on a character boundary;
/// `None` where the compressed body would have to be cut inside a character.
pub fn compress_html_checked(html: &str) -> (r: Option<String>)
    ensures
        cuts_cleanly(html@) ==> (r matches Some(x) && x@ == safe_prefix(compressed(html@), MAX_BODY_BYTES as int)),
        !cuts_cleanly(html@) ==> r is None,
{
    let c = compressed_string(html);
    let t = safe_truncate(c.as_str(), MAX_BODY_BYTES);
    if str_byte_len(c.as_str()) <= MAX_BODY_BYTES || str_byte_len(t.as_str()) == MAX_BODY_BYTES {
        Some(t)
    } else {
        None
    }
}

// ---------------------------------------------------------------------------
// Photos in the draft
// ---------------------------------------------------------------------------

/// `{{photo:`, the opening of a photo placeholder.
pub open spec fn photo_open() -> Seq<char> {
    seq!['{', '{', 'p', 'h', 'o', 't', 'o', ':']
}

/// `__tpl_asset_`, the prefix of the names under which template assets ride
/// along with the photos.
pub open spec fn tpl_asset_prefix() -> Seq<char> {
    seq!['_', '_', 't', 'p', 'l', '_', 'a', 's', 's', 'e', 't', '_']
}

/// The placeholder of a photo in a laid-out article.
pub open spec fn photo_placeholder(name: Seq<char>) -> Seq<char> {
    photo_open() + name + placeholder_close()
}

/// The first photo placeholder of `s` that names a real photo rather than a
/// template asset; the search stops at a placeholder that is not closed.
pub open spec fn cover_ref(s: Seq<char>) -> Option<Seq<char>>
    decreases s.len(),
{
    match find(s, photo_open()) {
        None => None,
        Some(p) => if 0 <= p && p + 8 <= s.len() {
            let inner = s.skip(p + 8);
            match find(inner, placeholder_close()) {
                None => None,
                Some(e) => if 0 <= e && e + 2 <= inner.len() {
                    let name = inner.take(e);
                    if !starts_with(name, tpl_asset_prefix()) {
                        Some(name)
                    } else {
                        cover_ref(inner.skip(e + 2))
                    }
                } else {
                    None
                },
            }
        } else {
            None
        },
    }
}

/// The index of the first of `names` equal to `n`.
pub open spec fn index_of_name(names: Seq<Seq<char>>, n: Seq<char>) -> Option<int>
    decreases names.len(),
{
    if names.len() == 0 {
        None
    } else if names[0] == n {
        Some(0)
    } else {
        match index_of_name(names.drop_first(), n) {
            Some(j) => Some(j + 1),
            None => None,
        }
    }
}

/// The index of the cover among photos named `names` (not empty): the photo
/// the body places first, else the first photo; a name that matches no
/// photo also gives the first.
pub open spec fn cover_index(content: Seq<char>, names: Seq<Seq<char>>) -> int {
    let wanted = match cover_ref(content) {
        Some(n) => n,
        None => names[0],
    };
    match index_of_name(names, wanted) {
        Some(j) => j,
        None => 0,
    }
}

/// `index_of_name` gives the first index holding `n`, when one does.
proof fn lemma_index_of_name(names: Seq<Seq<char>>, n: Seq<char>)
    ensures
        index_of_name(names, n) matches Some(i) ==> 0 <= i < names.len() && names[i] == n && forall|k: int|
            0 <= k < i ==> names[k] != n,
        index_of_name(names, n) is None ==> !names.contains(n),
    decreases names.len(),
{
    if names.len() > 0 {
        lemma_index_of_name(names.drop_first(), n);
        if names[0] != n {
            match index_of_name(names.drop_first(), n) {
                Some(j) => {
                    assert forall|k: int| 0 <= k < j + 1 implies names[k] != n by {
                        if k > 0 {
                            assert(names[k] == names.drop_first()[k - 1]);
                        }
                    }
                },
                None => {
                    if names.contains(n) {
                        let k = choose|k: int| 0 <= k < names.len() && names[k] == n;
                        assert(names.drop_first()[k - 1] == n);
                    }
                },
            }
        }
    }
}

/// The cover is the first real photo the body places: when the content is
/// `x`, a placeholder for `n`, and anything after, where `x` holds no
/// placeholder opening, `n` holds no `}` and is not a template asset's name,
/// and `n` is one of the photos, the cover is the first photo named `n`,
/// whatever follows.
pub proof fn law_cover_is_first_placed_photo(x: Seq<char>, n: Seq<char>, y: Seq<char>, names: Seq<Seq<char>>)
    requires
        !contains(x, photo_open()),
        forall|k: int| 0 <= k < n.len() ==> n[k] != '}',
        !starts_with(n, tpl_asset_prefix()),
        names.contains(n),
    ensures
        ({
            let i = cover_index(x + photo_open() + n + placeholder_close() + y, names);
            0 <= i < names.len() && names[i] == n && forall|k: int| 0 <= k < i ==> names[k] != n
        }),
{
    let o = photo_open();
    let s = x + o + n + placeholder_close() + y;
    let xl = x.len() as int;
    assert(s.subrange(xl, xl + 8) =~= o);
    assert forall|j: int| 0 <= j < xl implies !occurs_at(s, o, j) by {
        if occurs_at(s, o, j) {
            if j + 8 <= xl {
                assert(s.subrange(j, j + 8) =~= x.subrange(j, j + 8));
                assert(occurs_at(x, o, j));
            } else {
                let m = xl - j;
                assert(s.subrange(j, j + 8)[m] == s[xl]);
                assert(s[xl] == '{');
                assert(o[m] == '{');
                assert(s.subrange(j, j + 8)[m + 1] == s[xl + 1]);
                assert(s[xl + 1] == '{');
                assert(o[m + 1] == '{');
                if m == 1 {
                    assert(o[2] == 'p');
                } else if m == 2 {
                } else if m == 3 {
                } else if m == 4 {
                } else if m == 5 {
                } else if m == 6 {
                } else {
                    assert(m == 7);
                }
            }
        }
    }
    lemma_find_exact(s, o, xl);
    let inner = s.skip(xl + 8);
    let c = placeholder_close();
    assert(inner =~= n + c + y);
    let nl = n.len() as int;
    assert(inner.subrange(nl, nl + 2) =~= c);
    assert forall|j: int| 0 <= j < nl implies !occurs_at(inner, c, j) by {
        if occurs_at(inner, c, j) {
            assert(inner.subrange(j, j + 2)[0] == inner[j]);
            assert(inner[j] == n[j]);
        }
    }
    lemma_find_exact(inner, c, nl);
    assert(inner.take(nl) =~= n);
    assert(cover_ref(s) == Some(n));
    lemma_index_of_name(names, n);
}

/// Template assets are passed over: a placeholder naming a template asset
/// (its name free of `}`), after text with no placeholder opening, leaves
/// the cover to the placeholders that follow it.
pub proof fn law_cover_skips_template_assets(x: Seq<char>, n: Seq<char>, y: Seq<char>)
    requires
        !contains(x, photo_open()),
        forall|k: int| 0 <= k < n.len() ==> n[k] != '}',
        starts_with(n, tpl_asset_prefix()),
    ensures
        cover_ref(x + photo_open() + n + placeholder_close() + y) == cover_ref(y),
{
    let o = photo_open();
    let s = x + o + n + placeholder_close() + y;
    let xl = x.len() as int;
    assert(s.subrange(xl, xl + 8) =~= o);
    assert forall|j: int| 0 <= j < xl implies !occurs_at(s, o, j) by {
        if occurs_at(s, o, j) {
            if j + 8 <= xl {
                assert(s.subrange(j, j + 8) =~= x.subrange(j, j + 8));
                assert(occurs_at(x, o, j));
            } else {
                let m = xl - j;
                assert(s.subrange(j, j + 8)[m] == s[xl]);
                assert(o[m] == '{');
                assert(s.subrange(j, j + 8)[m + 1] == s[xl + 1]);
                assert(o[m + 1] == '{');
                if m == 1 {
                    assert(o[2] == 'p');
                } else if m == 2 {
                } else if m == 3 {
                } else if m == 4 {
                } else if m == 5 {
                } else if m == 6 {
                } else {
                    assert(m == 7);
                }
            }
        }
    }
    lemma_find_exact(s, o, xl);
    let inner = s.skip(xl + 8);
    let c = placeholder_close();
    assert(inner =~= n + c + y);
    let nl = n.len() as int;
    assert(inner.subrange(nl, nl + 2) =~= c);
    assert forall|j: int| 0 <= j < nl implies !occurs_at(inner, c, j) by {
        if occurs_at(inner, c, j) {
            assert(inner.subrange(j, j + 2)[0] == inner[j]);
            assert(inner[j] == n[j]);
        }
    }
    lemma_find_exact(inner, c, nl);
    assert(inner.take(nl) =~= n);
    assert(inner.skip(nl + 2) =~= y);
}

/// The views of a list of strings.
pub open spec fn views(v: Seq<String>) -> Seq<Seq<char>> {
    v.map_values(|s: String| s@)
}

/// `cover_ref(c)`.
fn cover_ref_exec(c: &Vec<char>) -> (r: Option<Vec<char>>)
    ensures
        match cover_ref(c@) {
            Some(n) => r matches Some(x) && x@ == n,
            None => r is None,
        },
{
    let open = vec!['{', '{', 'p', 'h', 'o', 't', 'o', ':'];
    let close = vec!['}', '}'];
    let prefix = vec!['_', '_', 't', 'p', 'l', '_', 'a', 's', 's', 'e', 't', '_'];
    assert(open@ =~= photo_open());
    assert(close@ =~= placeholder_close());
    assert(prefix@ =~= tpl_asset_prefix());
    let mut rest: Vec<char> = Vec::new();
    extend_range(&mut rest, c, 0, c.len());
    assert(rest@ =~= c@);
    loop
        invariant
            open@ == photo_open(),
            close@ == placeholder_close(),
            prefix@ == tpl_asset_prefix(),
            cover_ref(c@) == cover_ref(rest@),
        decreases rest.len(),
    {
        let p = match find_from_exec(&rest, &open, 0) {
            Some(p) => p,
            None => {
                return None;
            },
        };
        let mut inner: Vec<char> = Vec::new();
        extend_range(&mut inner, &rest, p + 8, rest.len());
        assert(inner@ =~= rest@.skip(p + 8));
        let e = match find_from_exec(&inner, &close, 0) {
            Some(e) => e,
            None => {
                return None;
            },
        };
        let mut name: Vec<char> = Vec::new();
        extend_range(&mut name, &inner, 0, e);
        assert(name@ =~= inner@.take(e as int));
        if !starts_with_exec(&name, &prefix) {
            return Some(name);
        }
        let mut next: Vec<char> = Vec::new();
        extend_range(&mut next, &inner, e + 2, inner.len());
        assert(next@ =~= inner@.skip(e + 2));
        rest = next;
    }
}

/// The index of the cover among the photos to upload, named `names` (see
/// `cover_index`); `None` when there is no photo, since a draft needs a cover.
pub fn cover_photo(content: &str, names: &Vec<String>) -> (r: Option<usize>)
    ensures
        names.len() == 0 ==> r is None,
        names.len() > 0 ==> r == Some(cover_index(content@, views(names@)) as usize),
        r matches Some(i) ==> i < names.len(),
{
    if names.len() == 0 {
        return None;
    }
    let c = chars_of(content);
    let wanted: Vec<char> = match cover_ref_exec(&c) {
        Some(n) => n,
        None => chars_of(names[0].as_str()),
    };
    let ghost ns = views(names@);
    assert(c@ == content@);
    let mut j: usize = 0;
    assert(ns.skip(0) =~= ns);
    while j < names.len()
        invariant
            j <= names.len(),
            ns == views(names@),
            ns.len() == names.len(),
            wanted@ == (match cover_ref(content@) {
                Some(n) => n,
                None => ns[0],
            }),
            index_of_name(ns, wanted@) == (match index_of_name(ns.skip(j as int), wanted@) {
                Some(k) => Some(k + j),
                None => None,
            }),
        decreases names.len() - j,
    {
        assert(ns.skip(j as int)[0] == names@[j as int]@);
        assert(ns.skip(j as int).drop_first() =~= ns.skip(j + 1));
        if crate::text::str_eq_chars(names[j].as_str(), &wanted) {
            proof {
                assert(index_of_name(ns.skip(j as int), wanted@) == Some(0int));
                assert(cover_index(content@, ns) == j);
            }
            return Some(j);
        }
        j = j + 1;
    }
    assert(ns.skip(j as int) =~= Seq::<Seq<char>>::empty());
    Some(0)
}

/// The style of an uploaded image: template assets fill their wrapper, photos
/// get rounded corners.
pub open spec fn img_style(name: Seq<char>) -> Seq<char> {
    if starts_with(name, tpl_asset_prefix()) {
        "width:100%;display:block"@
    } else {
        "width:100%;border-radius:8px"@
    }
}

/// The markup that replaces the placeholder of an uploaded image.
pub open spec fn uploaded_img(name: Seq<char>, url: Seq<char>) -> Seq<char> {
    "<img src=\""@ + url + "\" style=\""@ + img_style(name) + "\" />"@
}

/// `h` with the placeholder of each uploaded image replaced by its markup,
/// one image after the other.
pub open spec fn inline_uploads(h: Seq<char>, ups: Seq<(Seq<char>, Seq<char>)>) -> Seq<char>
    decreases ups.len(),
{
    if ups.len() == 0 {
        h
    } else {
        inline_uploads(replace(h, photo_placeholder(ups[0].0), uploaded_img(ups[0].0, ups[0].1)), ups.drop_first())
    }
}

/// The views of a list of string pairs.
pub open spec fn pair_views(v: Seq<(String, String)>) -> Seq<(Seq<char>, Seq<char>)> {
    v.map_values(|p: (String, String)| (p.0@, p.1@))
}

/// The body with each uploaded image's placeholder replaced by an `<img>` of
/// the URL it was uploaded to; `uploads` are (name, URL) pairs.
pub fn inline_uploaded_images(html: &str, uploads: &Vec<(String, String)>) -> (r: String)
    ensures
        r@ == inline_uploads(html@, pair_views(uploads@)),
{
    let ghost ups = pair_views(uploads@);
    let prefix = vec!['_', '_', 't', 'p', 'l', '_', 'a', 's', 's', 'e', 't', '_'];
    assert(prefix@ =~= tpl_asset_prefix());
    let mut h = chars_of(html);
    let mut i: usize = 0;
    assert(ups.skip(0) =~= ups);
    while i < uploads.len()
        invariant
            i <= uploads.len(),
            ups == pair_views(uploads@),
            prefix@ == tpl_asset_prefix(),
            inline_uploads(html@, ups) == inline_uploads(h@, ups.skip(i as int)),
        decreases uploads.len() - i,
    {
        let name = &uploads[i].0;
        let url = &uploads[i].1;
        let mut ph = String::new();
        push_str(&mut ph, "{{photo:");
        push_str(&mut ph, name.as_str());
        push_str(&mut ph, "}}");
        let mut img = String::new();
        push_str(&mut img, "<img src=\"");
        push_str(&mut img, url.as_str());
        push_str(&mut img, "\" style=\"");
        let nv = chars_of(name.as_str());
        if starts_with_exec(&nv, &prefix) {
            push_str(&mut img, "width:100%;display:block");
        } else {
            push_str(&mut img, "width:100%;border-radius:8px");
        }
        push_str(&mut img, "\" />");
        let pv = chars_of(ph.as_str());
        let iv = chars_of(img.as_str());
        proof {
            reveal_strlit("{{photo:");
            reveal_strlit("}}");
            assert(pv@ =~= photo_placeholder(ups[i as int].0));
            assert(iv@ =~= uploaded_img(ups[i as int].0, ups[i as int].1));
            assert(ups.skip(i as int)[0] == ups[i as int]);
            assert(ups.skip(i as int).drop_first() =~= ups.skip(i + 1));
        }
        h = replace_exec(&h, &pv, &iv);
        i = i + 1;
    }
    assert(ups.skip(i as int) =~= Seq::<(Seq<char>, Seq<char>)>::empty());
    string_of(&h)
}

// ---------------------------------------------------------------------------
// What is uploaded with a draft
// ---------------------------------------------------------------------------

/// The name under which the `i`-th template asset is uploaded.
pub open spec fn pseudo_asset_name(i: nat, file: Seq<char>) -> Seq<char> {
    tpl_asset_prefix() + decimal(i) + seq!['.'] + after_last_dot(file)
}

/// The body with its asset placeholders, from the `i`-th on, replaced: by the
/// photo placeholder of the asset's upload name where its file was read
/// (`found`), by nothing where it was not.
pub open spec fn publish_html_from(
    h: Seq<char>,
    refs: Seq<(Seq<char>, Seq<char>, Seq<char>)>,
    found: Seq<bool>,
    i: nat,
) -> Seq<char>
    decreases refs.len() - i,
{
    if i >= refs.len() {
        h
    } else {
        let by = if found[i as int] {
            photo_placeholder(pseudo_asset_name(i, refs[i as int].2))
        } else {
            Seq::empty()
        };
        publish_html_from(replace(h, refs[i as int].0, by), refs, found, i + 1)
    }
}

/// The uploads of the assets, from the `i`-th on, whose files were read:
/// (upload name, bytes, content type).
pub open spec fn asset_uploads_from(
    refs: Seq<(Seq<char>, Seq<char>, Seq<char>)>,
    loaded: Seq<Option<Seq<u8>>>,
    i: nat,
) -> Seq<(Seq<char>, Seq<u8>, Seq<char>)>
    decreases refs.len() - i,
{
    if i >= refs.len() {
        Seq::empty()
    } else {
        let rest = asset_uploads_from(refs, loaded, i + 1);
        match loaded[i as int] {
            Some(b) => seq![(pseudo_asset_name(i, refs[i as int].2), b, asset_type_of(refs[i as int].2))] + rest,
            None => rest,
        }
    }
}

/// The views of a list of loaded files.
pub open spec fn loaded_views(v: Seq<Option<Vec<u8>>>) -> Seq<Option<Seq<u8>>> {
    v.map_values(|o: Option<Vec<u8>>| match o {
        Some(b) => Some(b@),
        None => None,
    })
}

/// The views of a list of uploads.
pub open spec fn upload_views(v: Seq<(String, Vec<u8>, String)>) -> Seq<(Seq<char>, Seq<u8>, Seq<char>)> {
    v.map_values(|u: (String, Vec<u8>, String)| (u.0@, u.1@, u.2@))
}

/// Template assets ride with the photos: each asset placeholder of `html`
/// (see `collect_asset_refs`) whose file was read (`loaded`, one entry per
/// placeholder, in order) becomes the photo placeholder of the name
/// `__tpl_asset_{i}.{ext}` and is uploaded under it; one whose file could not
/// be read is removed.
pub fn publish_assets(html: &str, loaded: &Vec<Option<Vec<u8>>>) -> (r: (String, Vec<(String, Vec<u8>, String)>))
    requires
        loaded@.len() == asset_refs_from(html@, 0).len(),
    ensures
        r.0@ == publish_html_from(
            html@,
            asset_refs_from(html@, 0),
            loaded_views(loaded@).map_values(|o: Option<Seq<u8>>| o is Some),
            0,
        ),
        upload_views(r.1@) == asset_uploads_from(asset_refs_from(html@, 0), loaded_views(loaded@), 0),
{
    let refs = collect_asset_refs(html);
    let ghost rv = refs@.map_values(|t: (String, String, String)| (t.0@, t.1@, t.2@));
    let ghost lv = loaded_views(loaded@);
    let ghost found = lv.map_values(|o: Option<Seq<u8>>| o is Some);
    proof {
        lemma_asset_refs_placeholders(html@, 0);
    }
    let mut h = chars_of(html);
    let mut out: Vec<(String, Vec<u8>, String)> = Vec::new();
    let mut i: usize = 0;
    while i < refs.len()
        invariant
            i <= refs.len(),
            rv == refs@.map_values(|t: (String, String, String)| (t.0@, t.1@, t.2@)),
            rv == asset_refs_from(html@, 0),
            lv == loaded_views(loaded@),
            found == lv.map_values(|o: Option<Seq<u8>>| o is Some),
            loaded@.len() == rv.len(),
            forall|j: int| 0 <= j < rv.len() ==> (#[trigger] rv[j]).0.len() >= 10,
            publish_html_from(html@, rv, found, 0) == publish_html_from(h@, rv, found, i as nat),
            upload_views(out@) + asset_uploads_from(rv, lv, i as nat) == asset_uploads_from(rv, lv, 0),
        decreases refs.len() - i,
    {
        let full = chars_of(refs[i].0.as_str());
        let file = refs[i].2.as_str();
        let ghost before = upload_views(out@);
        assert(rv[i as int].0.len() >= 10);
        match &loaded[i] {
            Some(bytes) => {
                let fv = chars_of(file);
                let ext = after_last_dot_exec(&fv);
                let mut name = String::new();
                push_str(&mut name, "__tpl_asset_");
                let num = decimal_string(i as u64);
                push_str(&mut name, num.as_str());
                push_str(&mut name, ".");
                push_chars(&mut name, &ext);
                let mut ph = String::new();
                push_str(&mut ph, "{{photo:");
                push_str(&mut ph, name.as_str());
                push_str(&mut ph, "}}");
                let pv = chars_of(ph.as_str());
                proof {
                    reveal_strlit("__tpl_asset_");
                    reveal_strlit(".");
                    reveal_strlit("{{photo:");
                    reveal_strlit("}}");
                    assert(name@ =~= pseudo_asset_name(i as nat, rv[i as int].2));
                    assert(pv@ =~= photo_placeholder(pseudo_asset_name(i as nat, rv[i as int].2)));
                    assert(found[i as int]);
                }
                h = replace_exec(&h, &full, &pv);
                let ct = asset_content_type(file);
                let mut ctv = String::new();
                push_str(&mut ctv, ct);
                let copy = vstd::slice::slice_to_vec(bytes.as_slice());
                out.push((name, copy, ctv));
                proof {
                    assert(upload_views(out@) =~= before.push(
                        (pseudo_asset_name(i as nat, rv[i as int].2), lv[i as int]->0, asset_type_of(rv[i as int].2)),
                    ));
                    assert(upload_views(out@) + asset_uploads_from(rv, lv, i as nat + 1) =~= before
                        + asset_uploads_from(rv, lv, i as nat));
                }
            },
            None => {
                let empty: Vec<char> = Vec::new();
                proof {
                    assert(!found[i as int]);
                }
                h = replace_exec(&h, &full, &empty);
            },
        }
        i = i + 1;
    }
    proof {
        assert(asset_uploads_from(rv, lv, i as nat) =~= Seq::<(Seq<char>, Seq<u8>, Seq<char>)>::empty());
        assert(upload_views(out@) =~= asset_uploads_from(rv, lv, 0));
    }
    (string_of(&h), out)
}

/// The uploads of the photos, from the `i`-th on: (name, bytes, content type)
/// of each photo whose data URL has a comma; `None` when one of them does
/// not decode.
pub open spec fn photo_uploads_from(ps: Seq<PhotoEntry>, i: nat) -> Option<Seq<(Seq<char>, Seq<u8>, Seq<char>)>>
    decreases ps.len() - i,
{
    if i >= ps.len() {
        Some(Seq::empty())
    } else {
        match data_url_parts(ps[i as int].data_url@) {
            None => photo_uploads_from(ps, i + 1),
            Some(parts) => match base64_bytes(parts.1) {
                None => None,
                Some(b) => match photo_uploads_from(ps, i + 1) {
                    Some(rest) => Some(seq![(ps[i as int].name@, b, header_type(parts.0))] + rest),
                    None => None,
                },
            },
        }
    }
}

/// The photos to upload with a draft (see `photo_uploads_from`); an error
/// `图片解码失败: …` when a photo's data does not decode.
pub fn photo_uploads(photos: &Vec<PhotoEntry>) -> (r: Result<Vec<(String, Vec<u8>, String)>, String>)
    ensures
        match photo_uploads_from(photos@, 0) {
            Some(us) => r matches Ok(x) && upload_views(x@) == us,
            None => r matches Err(m) && starts_with(m@, "图片解码失败: "@),
        },
{
    let mut out: Vec<(String, Vec<u8>, String)> = Vec::new();
    let mut i: usize = 0;
    while i < photos.len()
        invariant
            i <= photos.len(),
            photo_uploads_from(photos@, 0) == (match photo_uploads_from(photos@, i as nat) {
                Some(rest) => Some(upload_views(out@) + rest),
                None => None,
            }),
        decreases photos.len() - i,
    {
        let ghost before = upload_views(out@);
        match parse_data_url(photos[i].data_url.as_str()) {
            Ok((ct, bytes)) => {
                let name = photos[i].name.clone();
                out.push((name, bytes, ct));
                proof {
                    assert(upload_views(out@) =~= before.push(upload_views(out@).last()));
                    let rest = photo_uploads_from(photos@, i as nat + 1);
                    if rest is Some {
                        assert(upload_views(out@) + rest->0 =~= before + (seq![upload_views(out@).last()] + rest->0));
                    }
                }
            },
            Err(DataUrlError::Malformed) => {},
            Err(DataUrlError::Undecodable(e)) => {
                let mut m = String::new();
                push_str(&mut m, "图片解码失败: ");
                push_str(&mut m, e.as_str());
                proof {
                    assert(m@.take("图片解码失败: "@.len() as int) =~= "图片解码失败: "@);
                }
                return Err(m);
            },
        }
        i = i + 1;
    }
    assert(upload_views(out@) + Seq::<(Seq<char>, Seq<u8>, Seq<char>)>::empty() =~= upload_views(out@));
    Ok(out)
}

} // verus!
