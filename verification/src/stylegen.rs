//! Making a style template from a description (and optionally a reference
//! page): checking the description, choosing which of the page's images are
//! kept as stickers, what the model is asked, and how its reply becomes the
//! saved template.

use vstd::prelude::*;
use crate::dataurl::lemma_occurs_char;
use crate::templates::{
    after_last_dot, after_last_dot_exec, asset_placeholder, asset_placeholder_of, fmt_kind,
    image_kind, is_asset_file, is_id_char, lemma_decimal_digits, normalize_img_url,
    normalized_image_url,
};
use crate::text::{
    occurs_at, chars_of, contains, contains_exec, decimal, decimal_string, extend_range, find, find_from_exec,
    first_line, first_line_exec, push_str, rfind, rfind_exec, same_chars, string_of,
    string_of_range, trim, trim_bounds, utf8_len, str_byte_len,
};

verus! {

// ---------------------------------------------------------------------------
// The request
// ---------------------------------------------------------------------------

/// The fewest characters a style description may have.
pub const MIN_DESCRIPTION_CHARS: usize = 6;

/// The style description, trimmed; an error when it has fewer than
/// `MIN_DESCRIPTION_CHARS` characters.
pub fn template_description(desc: &str) -> (r: Result<String, String>)
    ensures
        trim(desc@).len() < MIN_DESCRIPTION_CHARS ==> (r matches Err(m) && m@
            == "风格描述太短，请写清楚想要的颜色气质、用的场景等"@),
        trim(desc@).len() >= MIN_DESCRIPTION_CHARS ==> (r matches Ok(d) && d@ == trim(desc@)),
{
    let v = chars_of(desc);
    let (a, b) = trim_bounds(&v);
    if b - a < MIN_DESCRIPTION_CHARS {
        Err("风格描述太短，请写清楚想要的颜色气质、用的场景等".to_owned())
    } else {
        Ok(string_of_range(&v, a, b))
    }
}

/// A sticker kept from the reference page: its file name in the template's
/// asset folder, its width hint and the height derived from its aspect
/// ratio (0 when unknown).
pub struct StickerAsset {
    pub file: String,
    pub w: u32,
    pub h: u32,
}

/// `（约 W×Hpx`-style size note of a sticker.
pub open spec fn size_note(w: nat, h: nat) -> Seq<char> {
    if w > 0 {
        if h > 0 {
            "约 "@ + decimal(w) + "×"@ + decimal(h) + "px"@
        } else {
            "宽约 "@ + decimal(w) + "px"@
        }
    } else {
        "小尺寸"@
    }
}

/// The kind of a sticker by its extension.
pub open spec fn sticker_kind(file: Seq<char>) -> Seq<char> {
    if after_last_dot(file) == seq!['g', 'i', 'f'] {
        "GIF 动画贴纸"@
    } else {
        "静态贴纸"@
    }
}

/// The line that offers one sticker to the model.
pub open spec fn sticker_line(id: Seq<char>, a: StickerAsset) -> Seq<char> {
    asset_placeholder_of(id, a.file@) + "（"@ + sticker_kind(a.file@) + "，"@ + size_note(a.w as nat, a.h as nat)
        + "）\n"@
}

/// The lines of all stickers.
pub open spec fn sticker_lines(id: Seq<char>, s: Seq<StickerAsset>) -> Seq<char>
    decreases s.len(),
{
    if s.len() == 0 {
        Seq::empty()
    } else {
        sticker_lines(id, s.drop_last()) + sticker_line(id, s.last())
    }
}

/// Appends the line of one sticker.
fn push_sticker_line(r: &mut String, id: &str, a: &StickerAsset)
    ensures
        final(r)@ == old(r)@ + sticker_line(id@, *a),
{
    let ghost start = r@;
    let ph = asset_placeholder(id, a.file.as_str());
    push_str(r, ph.as_str());
    push_str(r, "（");
    let fv = chars_of(a.file.as_str());
    let ext = after_last_dot_exec(&fv);
    let gif = vec!['g', 'i', 'f'];
    assert(gif@ =~= seq!['g', 'i', 'f']);
    let mut kind = String::new();
    if same_chars(&ext, &gif) {
        push_str(&mut kind, "GIF 动画贴纸");
    } else {
        push_str(&mut kind, "静态贴纸");
    }
    push_str(r, kind.as_str());
    push_str(r, "，");
    let mut size = String::new();
    if a.w > 0 {
        let ws = decimal_string(a.w as u64);
        if a.h > 0 {
            push_str(&mut size, "约 ");
            push_str(&mut size, ws.as_str());
            push_str(&mut size, "×");
            let hs = decimal_string(a.h as u64);
            push_str(&mut size, hs.as_str());
            push_str(&mut size, "px");
        } else {
            push_str(&mut size, "宽约 ");
            push_str(&mut size, ws.as_str());
            push_str(&mut size, "px");
        }
    } else {
        push_str(&mut size, "小尺寸");
    }
    assert(size@ =~= size_note(a.w as nat, a.h as nat));
    push_str(r, size.as_str());
    push_str(r, "）\n");
    assert(r@ =~= start + sticker_line(id@, *a));
}

/// One line per sticker: its placeholder, its kind and its size (see `sticker_line`).
pub fn asset_placeholder_lines(id: &str, assets: &Vec<StickerAsset>) -> (r: String)
    ensures
        r@ == sticker_lines(id@, assets@),
{
    let mut r = String::new();
    let mut i: usize = 0;
    while i < assets.len()
        invariant
            i <= assets.len(),
            r@ == sticker_lines(id@, assets@.take(i as int)),
        decreases assets.len() - i,
    {
        push_sticker_line(&mut r, id, &assets[i]);
        proof {
            assert(assets@.take(i + 1).drop_last() =~= assets@.take(i as int));
            assert(assets@.take(i + 1).last() == assets@[i as int]);
        }
        i = i + 1;
    }
    assert(assets@.take(i as int) =~= assets@);
    r
}

/// What the model is asked for a template: the wanted style, then, with a
/// reference page, an excerpt of its text, then, with stickers kept from it,
/// the placeholders it may use.
pub open spec fn template_request_text(
    desc: Seq<char>,
    page_text: Option<Seq<char>>,
    id: Seq<char>,
    stickers: Seq<StickerAsset>,
) -> Seq<char> {
    let head = "用户想要的模板风格："@ + desc + "\n"@;
    match page_text {
        None => head,
        Some(t) => {
            let with_page = head + "\n参考页面内容节选（参考其配色与气质）：\n"@ + t + "\n"@;
            if stickers.len() == 0 {
                with_page
            } else {
                with_page + "\n以下贴纸素材已从参考页面采集并保存到本地（id="@ + id
                    + "）；注意大尺寸内容照片不会被采集（那类图排版时走 {photo:...}）。如需贴纸装饰，请直接嵌入这些占位符：\n"@
                    + sticker_lines(id, stickers)
            }
        },
    }
}

/// The user message asking for a template (see `template_request_text`).
pub fn template_request(desc: &str, page_text: Option<&str>, id: &str, stickers: &Vec<StickerAsset>) -> (r: String)
    ensures
        r@ == template_request_text(
            desc@,
            match page_text {
                Some(t) => Some(t@),
                None => None,
            },
            id@,
            stickers@,
        ),
{
    let mut r = String::new();
    push_str(&mut r, "用户想要的模板风格：");
    push_str(&mut r, desc);
    push_str(&mut r, "\n");
    match page_text {
        None => {},
        Some(t) => {
            push_str(&mut r, "\n参考页面内容节选（参考其配色与气质）：\n");
            push_str(&mut r, t);
            push_str(&mut r, "\n");
            if stickers.len() > 0 {
                push_str(&mut r, "\n以下贴纸素材已从参考页面采集并保存到本地（id=");
                push_str(&mut r, id);
                push_str(
                    &mut r,
                    "）；注意大尺寸内容照片不会被采集（那类图排版时走 {photo:...}）。如需贴纸装饰，请直接嵌入这些占位符：\n",
                );
                let lines = asset_placeholder_lines(id, stickers);
                push_str(&mut r, lines.as_str());
            }
        },
    }
    r
}

// ---------------------------------------------------------------------------
// Stickers
// ---------------------------------------------------------------------------

/// The most stickers kept from one page.
pub const MAX_STICKERS: usize = 24;

/// The largest sticker kept, in bytes.
pub const MAX_STICKER_BYTES: usize = 4_800_000;

/// Whether an image kind is kept as a sticker.
pub open spec fn sticker_format(kind: Seq<char>) -> bool {
    kind == seq!['p', 'n', 'g'] || kind == seq!['g', 'i', 'f'] || kind == seq!['j', 'p', 'g'] || kind == seq![
        'j',
        'p',
        'e',
        'g',
    ] || kind == seq!['w', 'e', 'b', 'p']
}

/// What to download for an image of the page: for a sticker (a GIF, or an
/// image whose width hint is at most 400) of a kept kind, the address to
/// fetch and its kind; `None` for any other image.
pub fn sticker_plan(url: &str, w: u32) -> (r: Option<(String, String)>)
    ensures
        ((image_kind(url@) == seq!['g', 'i', 'f'] || (w > 0 && w <= 400)) && sticker_format(image_kind(url@)))
            ==> (r matches Some(p) && p.0@ == normalized_image_url(url@) && p.1@ == image_kind(url@)),
        !((image_kind(url@) == seq!['g', 'i', 'f'] || (w > 0 && w <= 400)) && sticker_format(image_kind(url@)))
            ==> r is None,
{
    let kind = fmt_kind(url);
    let kv = chars_of(kind.as_str());
    let png = vec!['p', 'n', 'g'];
    let gif = vec!['g', 'i', 'f'];
    let jpg = vec!['j', 'p', 'g'];
    let jpeg = vec!['j', 'p', 'e', 'g'];
    let webp = vec!['w', 'e', 'b', 'p'];
    assert(png@ =~= seq!['p', 'n', 'g']);
    assert(gif@ =~= seq!['g', 'i', 'f']);
    assert(jpg@ =~= seq!['j', 'p', 'g']);
    assert(jpeg@ =~= seq!['j', 'p', 'e', 'g']);
    assert(webp@ =~= seq!['w', 'e', 'b', 'p']);
    let is_gif = same_chars(&kv, &gif);
    if !(is_gif || (w > 0 && w <= 400)) {
        return None;
    }
    if !(same_chars(&kv, &png) || is_gif || same_chars(&kv, &jpg) || same_chars(&kv, &jpeg) || same_chars(
        &kv,
        &webp,
    )) {
        return None;
    }
    Some((normalize_img_url(url), kind))
}

/// Whether a downloaded sticker is kept by its size: not empty and at most
/// `MAX_STICKER_BYTES`.
pub fn sticker_size_ok(len: usize) -> (b: bool)
    ensures
        b == (0 < len && len <= MAX_STICKER_BYTES),
{
    0 < len && len <= MAX_STICKER_BYTES
}

/// The file name of the next sticker kept, `saved` being kept already.
pub fn sticker_file_name(saved: usize, kind: &str) -> (r: String)
    requires
        saved < MAX_STICKERS,
    ensures
        r@ == "asset"@ + decimal(saved as nat + 1) + "."@ + kind@,
{
    let mut r = String::new();
    push_str(&mut r, "asset");
    let n = decimal_string(saved as u64 + 1);
    push_str(&mut r, n.as_str());
    push_str(&mut r, ".");
    push_str(&mut r, kind);
    r
}

/// A character of a name made only of id characters and dots is never a
/// slash or a backslash, so such a name contains neither.
proof fn lemma_no_separators(s: Seq<char>)
    requires
        forall|i: int| 0 <= i < s.len() ==> is_id_char(#[trigger] s[i]) || s[i] == '.',
    ensures
        !contains(s, seq!['/']),
        !contains(s, seq!['\\']),
{
    if contains(s, seq!['/']) {
        let i = choose|i: int| occurs_at(s, seq!['/'], i);
        lemma_occurs_char(s, '/', i);
    }
    if contains(s, seq!['\\']) {
        let i = choose|i: int| occurs_at(s, seq!['\\'], i);
        lemma_occurs_char(s, '\\', i);
    }
}

/// Every sticker file name is an asset file name, so a kept sticker can be
/// listed, served and exported like any other template asset.
pub proof fn law_sticker_names_are_asset_files(n: nat, kind: Seq<char>)
    requires
        sticker_format(kind),
    ensures
        is_asset_file("asset"@ + decimal(n + 1) + "."@ + kind),
{
    reveal_strlit("asset");
    reveal_strlit(".");
    let d = decimal(n + 1);
    lemma_decimal_digits(n + 1);
    let name = "asset"@ + d + "."@ + kind;
    assert(name =~= seq!['a', 's', 's', 'e', 't'] + d + seq!['.'] + kind);
    assert forall|i: int| 0 <= i < name.len() implies is_id_char(#[trigger] name[i]) || name[i] == '.' by {
        if 5 <= i < 5 + d.len() {
            assert(name[i] == d[i - 5]);
        } else if i >= 6 + d.len() {
            assert(name[i] == kind[i - 6 - d.len()]);
        }
    }
    lemma_no_separators(name);
    assert(name[0] == 'a');
    assert(name.len() > 2);
}

// ---------------------------------------------------------------------------
// The reply
// ---------------------------------------------------------------------------

/// The template in a model reply: some models think aloud first, so when the
/// reply names `主色` (the palette line), it starts at the line before the
/// palette line (the template's name); trimmed either way.
pub open spec fn template_body(content: Seq<char>) -> Seq<char> {
    match find(content, seq!['主', '色']) {
        Some(ci) => {
            let before = content.take(ci);
            let name_start = match rfind(before, seq!['\n']) {
                Some(p) => match rfind(before.take(p), seq!['\n']) {
                    Some(p2) => p2 + 1,
                    None => 0,
                },
                None => 0,
            };
            trim(content.skip(name_start))
        },
        None => trim(content),
    }
}

/// The template in a model reply (see `template_body`).
pub fn strip_template_preamble(content: &str) -> (r: String)
    ensures
        r@ == template_body(content@),
{
    let v = chars_of(content);
    let key = vec!['主', '色'];
    let nl = vec!['\n'];
    assert(key@ =~= seq!['主', '色']);
    assert(nl@ =~= seq!['\n']);
    let start: usize = match find_from_exec(&v, &key, 0) {
        Some(ci) => {
            let mut before: Vec<char> = Vec::new();
            extend_range(&mut before, &v, 0, ci);
            assert(before@ =~= v@.take(ci as int));
            match rfind_exec(&before, &nl) {
                Some(p) => {
                    let mut b2: Vec<char> = Vec::new();
                    extend_range(&mut b2, &before, 0, p);
                    assert(b2@ =~= before@.take(p as int));
                    match rfind_exec(&b2, &nl) {
                        Some(p2) => p2 + 1,
                        None => 0,
                    }
                },
                None => 0,
            }
        },
        None => 0,
    };
    let mut rest: Vec<char> = Vec::new();
    extend_range(&mut rest, &v, start, v.len());
    assert(rest@ =~= v@.skip(start as int));
    let (a, b) = trim_bounds(&rest);
    let r = string_of_range(&rest, a, b);
    proof {
        if find(v@, seq!['主', '色']) is None {
            assert(v@.skip(0) =~= v@);
        }
    }
    r
}

/// The smallest template accepted, in bytes.
pub const MIN_TEMPLATE_BYTES: usize = 100;

/// The appendix that lists the stickers of a template.
pub open spec fn sticker_appendix(id: Seq<char>, stickers: Seq<StickerAsset>) -> Seq<char> {
    "\n\n==== 可用贴纸素材，逐个编写具体使用方法 ====\n（大尺寸照片不在列，排版时会走 {photo:...}；以下为本地贴纸：）\n"@
        + sticker_lines(id, stickers)
}

/// The name shown for a template: its first line, trimmed, else its id.
pub open spec fn template_title(content: Seq<char>, id: Seq<char>) -> Seq<char> {
    match first_line(content) {
        Some(l) => trim(l),
        None => id,
    }
}

/// The first 200 characters of a text.
pub open spec fn preview_of(s: Seq<char>) -> Seq<char> {
    if s.len() > 200 {
        s.take(200)
    } else {
        s
    }
}

/// The template saved from a model reply, and its name: the template body
/// (see `template_body`) followed, when stickers were kept, by their list;
/// an error, with a preview of the body, when the body is under
/// `MIN_TEMPLATE_BYTES` bytes or holds no `<`.
pub fn finish_template(reply: &str, id: &str, stickers: &Vec<StickerAsset>) -> (r: Result<(String, String), String>)
    ensures
        ({
            let body = template_body(reply@);
            let ok = utf8_len(body) >= MIN_TEMPLATE_BYTES && contains(body, seq!['<']);
            let content = if stickers@.len() == 0 {
                body
            } else {
                body + sticker_appendix(id@, stickers@)
            };
            &&& ok ==> (r matches Ok(t) && t.0@ == content && t.1@ == template_title(content, id@))
            &&& !ok ==> (r matches Err(m) && m@ == "AI 生成的模板内容无效："@ + preview_of(body))
        }),
{
    let body = strip_template_preamble(reply);
    let bv = chars_of(body.as_str());
    let lt = vec!['<'];
    assert(lt@ =~= seq!['<']);
    if str_byte_len(body.as_str()) < MIN_TEMPLATE_BYTES || !contains_exec(&bv, &lt) {
        let n = if bv.len() > 200 {
            200
        } else {
            bv.len()
        };
        let mut m = String::new();
        push_str(&mut m, "AI 生成的模板内容无效：");
        let p = string_of_range(&bv, 0, n);
        push_str(&mut m, p.as_str());
        assert(p@ =~= preview_of(body@));
        return Err(m);
    }
    let mut content = body;
    if stickers.len() > 0 {
        push_str(
            &mut content,
            "\n\n==== 可用贴纸素材，逐个编写具体使用方法 ====\n（大尺寸照片不在列，排版时会走 {photo:...}；以下为本地贴纸：）\n",
        );
        let lines = asset_placeholder_lines(id, stickers);
        push_str(&mut content, lines.as_str());
    }
    let cv = chars_of(content.as_str());
    let name = match first_line_exec(&cv) {
        Some(l) => {
            let (a, b) = trim_bounds(&l);
            string_of_range(&l, a, b)
        },
        None => string_of(&chars_of(id)),
    };
    Ok((content, name))
}

} // verus!
