//! The layout step: the prompt that asks the model for the article's HTML,
//! and the clean-up of the HTML the model returns.

use vstd::prelude::*;
use crate::llm::Message;
use crate::text::{
    chars_of, decimal, decimal_string, ends_with, ends_with_exec, extend_range, find,
    find_from_exec, first_line, first_line_exec, push_str, rfind, rfind_exec,
    starts_with, starts_with_exec, string_of_range, trim, trim_bounds, trim_end,
    back_skip_ws_exec, lemma_back_skip_ws, is_ws, lemma_find, lemma_rfind, lemma_skip_ws,
    occurs_at, skip_ws, back_skip_ws, trim_start, lemma_trim_twice, contains,
};

verus! {

/// A photo offered to the layout.
pub struct PhotoRef {
    pub name: String,
    pub description: String,
    pub width: u32,
    pub height: u32,
    /// Whether the user marked the photo as one the layout must use.
    pub required: bool,
}

/// A layout request.
pub struct FormatTask {
    pub draft: String,
    pub photos: Vec<PhotoRef>,
    pub template: Option<String>,
}

/// The orientation note of a photo: empty when a side is unknown (zero),
/// otherwise "横图" (width at least 5/4 of the height), "竖图" (height at least
/// 5/4 of the width) or "方图", then " {width}x{height}，".
pub open spec fn orientation_note(width: nat, height: nat) -> Seq<char> {
    if width == 0 || height == 0 {
        Seq::empty()
    } else {
        let o = if width >= height * 5 / 4 {
            "横图"@
        } else if height >= width * 5 / 4 {
            "竖图"@
        } else {
            "方图"@
        };
        o + seq![' '] + decimal(width) + seq!['x'] + decimal(height) + "，"@
    }
}

/// The orientation note of a `width` x `height` photo (see `orientation_note`).
pub fn orientation(width: u32, height: u32) -> (r: String)
    ensures
        r@ == orientation_note(width as nat, height as nat),
{
    if width == 0 || height == 0 {
        return String::new();
    }
    let w = width as u64;
    let h = height as u64;
    let mut r = String::new();
    if w >= h * 5 / 4 {
        push_str(&mut r, "横图");
    } else if h >= w * 5 / 4 {
        push_str(&mut r, "竖图");
    } else {
        push_str(&mut r, "方图");
    }
    crate::text::push_char(&mut r, ' ');
    let ws = decimal_string(w);
    push_str(&mut r, ws.as_str());
    crate::text::push_char(&mut r, 'x');
    let hs = decimal_string(h);
    push_str(&mut r, hs.as_str());
    push_str(&mut r, "，");
    assert(r@ =~= orientation_note(width as nat, height as nat));
    r
}

/// The description shown for a photo: its description, or "（无描述）".
pub open spec fn shown_description(d: Seq<char>) -> Seq<char> {
    if d.len() == 0 { "（无描述）"@ } else { d }
}

/// One line of the photo list.
pub open spec fn photo_line(p: PhotoRef) -> Seq<char> {
    "- "@ + p.name@ + "（"@ + (if p.required { "必选"@ } else { "可选"@ }) + "，"@ + orientation_note(
        p.width as nat,
        p.height as nat,
    ) + "）："@ + shown_description(p.description@) + "\n"@
}

/// A photo's line in the layout prompt ends with its description and a
/// line feed; only a photo without a description shows `（无描述）` there.
pub proof fn law_photo_line_shows_description(p: PhotoRef)
    ensures
        p.description@.len() > 0 ==> ends_with(photo_line(p), p.description@ + "\n"@),
        p.description@.len() == 0 ==> ends_with(photo_line(p), "（无描述）\n"@),
        starts_with(photo_line(p), "- "@ + p.name@ + "（"@ + (if p.required { "必选"@ } else { "可选"@ })),
{
    reveal_strlit("\n");
    reveal_strlit("（无描述）\n");
    reveal_strlit("（无描述）");
    let line = photo_line(p);
    let tail = shown_description(p.description@) + "\n"@;
    let head = "- "@ + p.name@ + "（"@ + (if p.required { "必选"@ } else { "可选"@ }) + "，"@ + orientation_note(
        p.width as nat,
        p.height as nat,
    ) + "）："@;
    assert(line =~= head + tail);
    assert(line.skip(line.len() - tail.len()) =~= tail);
    if p.description@.len() == 0 {
        assert(tail =~= "（无描述）\n"@);
    }
    let h0 = "- "@ + p.name@ + "（"@ + (if p.required { "必选"@ } else { "可选"@ });
    assert(line.take(h0.len() as int) =~= h0);
}

/// One line of the photo list (see `photo_line`).
pub fn photo_line_string(p: &PhotoRef) -> (r: String)
    ensures
        r@ == photo_line(*p),
{
    let mut user = String::new();
    push_str(&mut user, "- ");
    push_str(&mut user, p.name.as_str());
    push_str(&mut user, "（");
    if p.required {
        push_str(&mut user, "必选");
    } else {
        push_str(&mut user, "可选");
    }
    push_str(&mut user, "，");
    let o = orientation(p.width, p.height);
    push_str(&mut user, o.as_str());
    push_str(&mut user, "）：");
    if p.description.as_str().is_empty() {
        push_str(&mut user, "（无描述）");
    } else {
        push_str(&mut user, p.description.as_str());
    }
    push_str(&mut user, "\n");
    assert(user@ =~= photo_line(*p));
    user
}

/// The lines of the photo list, in order.
pub open spec fn photo_lines(ps: Seq<PhotoRef>) -> Seq<char>
    decreases ps.len(),
{
    if ps.len() == 0 {
        Seq::empty()
    } else {
        photo_lines(ps.drop_last()) + photo_line(ps.last())
    }
}

/// The block of one template in the system prompt.
pub open spec fn template_block(t: (Seq<char>, Seq<char>)) -> Seq<char> {
    "\n====== 模板 "@ + t.0 + " ======\n"@ + t.1 + "\n"@
}

/// The blocks of the templates, in order.
pub open spec fn template_blocks(ts: Seq<(Seq<char>, Seq<char>)>) -> Seq<char>
    decreases ts.len(),
{
    if ts.len() == 0 {
        Seq::empty()
    } else {
        template_blocks(ts.drop_last()) + template_block(ts.last())
    }
}

/// The template library appended to the system prompt: nothing when there
/// is no template; otherwise the user's choice (or the instruction to choose),
/// every template in full, and the instruction to copy the chosen one's styles.
pub open spec fn template_section(chosen: Option<Seq<char>>, ts: Seq<(Seq<char>, Seq<char>)>) -> Seq<char> {
    if ts.len() == 0 {
        Seq::empty()
    } else {
        "\n\n可用模板库（"@ + (match chosen {
            Some(t) => "用户已指定模板: "@ + t + "，必须沿用该模板的样式与贴图，不要改配色"@,
            None => "根据文章内容自动选择最合适的一个模板"@,
        }) + "）：\n"@ + template_blocks(ts) + "\n请完整使用选中模板中的配色与 style 片段（照搬 style 属性值），贴图素材直接使用其 {{asset:...}} 占位符。"@
    }
}

/// The user prompt of the layout step.
pub open spec fn layout_prompt(draft: Seq<char>, photos: Seq<PhotoRef>) -> Seq<char> {
    "请将以下文章排版为公众号 HTML：\n\n"@ + draft + "\n\n"@ + (if photos.len() > 0 {
        "照片列表（用 {{photo:文件名}} 标记配图位置）：\n"@ + photo_lines(photos)
            + "\n标记为「必选」的照片必须全部用上，放到文章最合适的位置；「可选」照片由你根据文章内容自行决定是否使用。\n"@
    } else {
        "（本次无照片提供）"@
    })
}

/// The (id, text) pairs of the templates as views.
pub open spec fn templates_view(ts: Seq<(String, String)>) -> Seq<(Seq<char>, Seq<char>)> {
    ts.map_values(|t: (String, String)| (t.0@, t.1@))
}

impl FormatTask {
    /// The messages of the layout step: the system prompt followed by the
    /// template library (see `template_section`), then the draft with the
    /// photo list (see `layout_prompt`). `templates` are the (id, text) pairs
    /// of the available templates.
    pub fn build_messages(&self, system_prompt: &str, templates: &[(String, String)]) -> (ms: Vec<Message>)
        ensures
            ms@.len() == 2,
            ms@[0].role@ == "system"@,
            ms@[0].content@ == system_prompt@ + template_section(
                match self.template {
                    Some(t) => Some(t@),
                    None => None,
                },
                templates_view(templates@),
            ),
            ms@[1].role@ == "user"@,
            ms@[1].content@ == layout_prompt(self.draft@, self.photos@),
    {
        let ghost tv = templates_view(templates@);
        let mut system = String::new();
        push_str(&mut system, system_prompt);
        if templates.len() > 0 {
            push_str(&mut system, "\n\n可用模板库（");
            match &self.template {
                Some(t) => {
                    push_str(&mut system, "用户已指定模板: ");
                    push_str(&mut system, t.as_str());
                    push_str(&mut system, "，必须沿用该模板的样式与贴图，不要改配色");
                },
                None => {
                    push_str(&mut system, "根据文章内容自动选择最合适的一个模板");
                },
            }
            push_str(&mut system, "）：\n");
            let ghost head = system@;
            let mut i: usize = 0;
            while i < templates.len()
                invariant
                    i <= templates@.len(),
                    tv == templates_view(templates@),
                    system@ == head + template_blocks(tv.take(i as int)),
                decreases templates.len() - i,
            {
                let (id, content) = (&templates[i].0, &templates[i].1);
                push_str(&mut system, "\n====== 模板 ");
                push_str(&mut system, id.as_str());
                push_str(&mut system, " ======\n");
                push_str(&mut system, content.as_str());
                push_str(&mut system, "\n");
                proof {
                    assert(tv.take(i + 1).drop_last() =~= tv.take(i as int));
                    assert(tv.take(i + 1).last() == tv[i as int]);
                    assert(system@ =~= head + template_blocks(tv.take(i + 1)));
                }
                i = i + 1;
            }
            assert(tv.take(templates@.len() as int) =~= tv);
            push_str(&mut system, "\n请完整使用选中模板中的配色与 style 片段（照搬 style 属性值），贴图素材直接使用其 {{asset:...}} 占位符。");
        }
        assert(system@ =~= system_prompt@ + template_section(
            match self.template {
                Some(t) => Some(t@),
                None => None,
            },
            tv,
        ));
        let mut user = String::new();
        push_str(&mut user, "请将以下文章排版为公众号 HTML：\n\n");
        push_str(&mut user, self.draft.as_str());
        push_str(&mut user, "\n\n");
        let ghost head = user@;
        if self.photos.len() > 0 {
            push_str(&mut user, "照片列表（用 {{photo:文件名}} 标记配图位置）：\n");
            let ghost head2 = user@;
            let mut i: usize = 0;
            while i < self.photos.len()
                invariant
                    i <= self.photos@.len(),
                    user@ == head2 + photo_lines(self.photos@.take(i as int)),
                decreases self.photos.len() - i,
            {
                let line = photo_line_string(&self.photos[i]);
                push_str(&mut user, line.as_str());
                proof {
                    assert(self.photos@.take(i + 1).drop_last() =~= self.photos@.take(i as int));
                    assert(self.photos@.take(i + 1).last() == self.photos@[i as int]);
                    assert(user@ =~= head2 + photo_lines(self.photos@.take(i + 1)));
                }
                i = i + 1;
            }
            assert(self.photos@.take(self.photos@.len() as int) =~= self.photos@);
            push_str(&mut user, "\n标记为「必选」的照片必须全部用上，放到文章最合适的位置；「可选」照片由你根据文章内容自行决定是否使用。\n");
        } else {
            push_str(&mut user, "（本次无照片提供）");
        }
        assert(user@ =~= layout_prompt(self.draft@, self.photos@));
        let mut ms: Vec<Message> = Vec::new();
        ms.push(Message::system(system));
        ms.push(Message::user(user));
        ms
    }
}

// ---------------------------------------------------------------------------
// Cleaning the model's HTML
// ---------------------------------------------------------------------------

/// Three backticks, the fence of a code block.
pub open spec fn fence() -> Seq<char> {
    seq!['`', '`', '`']
}

/// A code fence around the text removed: from a text that starts with a
/// fence, its first line is dropped and, if it then ends with a fence, that
/// fence and the whitespace before it are dropped too.
pub open spec fn unfenced(h: Seq<char>) -> Seq<char> {
    if starts_with(h, fence()) {
        let h1 = match find(h, seq!['\n']) {
            Some(p) => h.skip(p + 1),
            None => h,
        };
        if ends_with(h1, fence()) {
            trim_end(h1.take(h1.len() - 3))
        } else {
            h1
        }
    } else {
        h
    }
}

/// The HTML in a model reply: the trimmed, unfenced reply from its first
/// `<` to its last `>`, trimmed; empty when there is no `<`.
pub open spec fn html_in(content: Seq<char>) -> Seq<char> {
    let h = unfenced(trim(content));
    match find(h, seq!['<']) {
        None => Seq::empty(),
        Some(s) => {
            let h2 = h.skip(s);
            let h3 = match rfind(h2, seq!['>']) {
                Some(e) => h2.take(e + 1),
                None => h2,
            };
            trim(h3)
        },
    }
}

/// The HTML taken from a model reply is empty or starts with a tag's `<`;
/// when it holds a `>` it also ends with one.
pub proof fn law_extracted_html_is_markup(content: Seq<char>)
    ensures
        html_in(content).len() == 0 || html_in(content)[0] == '<',
        html_in(content).len() > 0 && html_in(content).contains('>') ==> html_in(content).last() == '>',
{
    let h = unfenced(trim(content));
    match find(h, seq!['<']) {
        None => {},
        Some(s) => {
            lemma_find(h, seq!['<']);
            let h2 = h.skip(s);
            assert(h.subrange(s, s + 1) == seq!['<']);
            assert(h2[0] == h.subrange(s, s + 1)[0]);
            lemma_rfind(h2, seq!['>']);
            let h3 = match rfind(h2, seq!['>']) {
                Some(e) => h2.take(e + 1),
                None => h2,
            };
            assert(h3.len() > 0 && h3[0] == '<');
            match rfind(h2, seq!['>']) {
                Some(e) => {
                    assert(h2.subrange(e, e + 1) == seq!['>']);
                    assert(h3.last() == h2.subrange(e, e + 1)[0]);
                },
                None => {
                    if h3.contains('>') {
                        let j = choose|j: int| 0 <= j < h3.len() && h3[j] == '>';
                        assert(h2.subrange(j, j + 1) =~= seq!['>']);
                        assert(occurs_at(h2, seq!['>'], j));
                    }
                },
            }
            lemma_trim_keeps_ends(h3);
            if html_in(content).contains('>') {
                let j = choose|j: int| 0 <= j < html_in(content).len() && html_in(content)[j] == '>';
                lemma_trim_is_subrange(h3);
                assert(h3.contains('>'));
            }
        },
    }
}

/// The HTML taken from a model reply is trimmed, and taking the HTML out of
/// it again gives it back unchanged.
pub proof fn law_extracted_html_is_stable(content: Seq<char>)
    ensures
        trim(html_in(content)) == html_in(content),
        html_in(html_in(content)) == html_in(content),
{
    law_extracted_html_is_markup(content);
    let r = html_in(content);
    let h = unfenced(trim(content));
    match find(h, seq!['<']) {
        None => {
            lemma_trim_twice(Seq::<char>::empty());
            lemma_trim_twice(trim(Seq::<char>::empty()));
            crate::text::lemma_trim_shape(Seq::<char>::empty());
        },
        Some(s) => {
            let h2 = h.skip(s);
            let h3 = match rfind(h2, seq!['>']) {
                Some(e) => h2.take(e + 1),
                None => h2,
            };
            lemma_trim_twice(h3);
        },
    }
    assert(trim(r) == r);
    if r.len() > 0 {
        assert(!starts_with(r, fence())) by {
            if starts_with(r, fence()) {
                assert(r.take(3)[0] == fence()[0]);
            }
        }
        assert(unfenced(trim(r)) == r);
        assert(occurs_at(r, seq!['<'], 0)) by {
            assert(r.subrange(0, 1) =~= seq!['<']);
        }
        lemma_find(r, seq!['<']);
        assert(find(r, seq!['<']) == Some(0int));
        assert(r.skip(0) =~= r);
        lemma_rfind(r, seq!['>']);
        if r.contains('>') {
            assert(occurs_at(r, seq!['>'], r.len() - 1)) by {
                assert(r.subrange(r.len() - 1, r.len() as int) =~= seq!['>']);
            }
            assert(rfind(r, seq!['>']) == Some(r.len() - 1));
            assert(r.take(r.len() as int) =~= r);
        } else {
            assert(rfind(r, seq!['>']) is None) by {
                if contains(r, seq!['>']) {
                    let j = choose|j: int| occurs_at(r, seq!['>'], j);
                    assert(r[j] == r.subrange(j, j + 1)[0]);
                }
            }
        }
    } else {
        assert(!starts_with(r, fence()));
        assert(unfenced(trim(r)) == r);
        lemma_find(r, seq!['<']);
        assert(!contains(r, seq!['<']));
    }
}

/// Whether `x` is a contiguous piece of `h`.
pub open spec fn piece_of(x: Seq<char>, h: Seq<char>) -> bool {
    exists|a: int, b: int| 0 <= a <= b <= h.len() && x == h.subrange(a, b)
}

proof fn lemma_piece_sub(h: Seq<char>, a: int, b: int)
    requires
        0 <= a <= b <= h.len(),
    ensures
        piece_of(h.subrange(a, b), h),
{
}

proof fn lemma_piece_trans(x: Seq<char>, y: Seq<char>, z: Seq<char>)
    requires
        piece_of(x, y),
        piece_of(y, z),
    ensures
        piece_of(x, z),
{
    let (a1, b1) = choose|a: int, b: int| 0 <= a <= b <= y.len() && x == y.subrange(a, b);
    let (a2, b2) = choose|a: int, b: int| 0 <= a <= b <= z.len() && y == z.subrange(a, b);
    assert(x =~= z.subrange(a2 + a1, a2 + b1));
}

proof fn lemma_trim_piece(h: Seq<char>)
    ensures
        piece_of(trim(h), h),
{
    crate::text::lemma_trim_shape(h);
}

proof fn lemma_unfenced_piece(h: Seq<char>)
    ensures
        piece_of(unfenced(h), h),
{
    lemma_piece_sub(h, 0, h.len() as int);
    assert(h.subrange(0, h.len() as int) =~= h);
    if starts_with(h, fence()) {
        let h1 = match find(h, seq!['\n']) {
            Some(p) => h.skip(p + 1),
            None => h,
        };
        match find(h, seq!['\n']) {
            Some(p) => {
                lemma_find(h, seq!['\n']);
                lemma_piece_sub(h, p + 1, h.len() as int);
                assert(h1 =~= h.subrange(p + 1, h.len() as int));
            },
            None => {},
        }
        if ends_with(h1, fence()) {
            let x = h1.take(h1.len() - 3);
            lemma_back_skip_ws(x, x.len() as int);
            lemma_piece_sub(x, 0, back_skip_ws(x, x.len() as int));
            lemma_piece_sub(h1, 0, h1.len() - 3);
            lemma_piece_trans(trim_end(x), x, h1);
            lemma_piece_trans(trim_end(x), h1, h);
        }
    }
}

/// The HTML taken from a model reply is a contiguous piece of the reply.
pub proof fn law_extracted_html_is_taken_from_reply(content: Seq<char>)
    ensures
        piece_of(html_in(content), content),
{
    let t = trim(content);
    let h = unfenced(t);
    lemma_trim_piece(content);
    lemma_unfenced_piece(t);
    lemma_piece_trans(h, t, content);
    match find(h, seq!['<']) {
        None => {
            lemma_piece_sub(content, 0, 0);
            assert(content.subrange(0, 0) =~= Seq::<char>::empty());
        },
        Some(s) => {
            lemma_find(h, seq!['<']);
            let h2 = h.skip(s);
            lemma_piece_sub(h, s, h.len() as int);
            assert(h2 =~= h.subrange(s, h.len() as int));
            let h3 = match rfind(h2, seq!['>']) {
                Some(e) => h2.take(e + 1),
                None => h2,
            };
            match rfind(h2, seq!['>']) {
                Some(e) => {
                    lemma_rfind(h2, seq!['>']);
                    lemma_piece_sub(h2, 0, e + 1);
                    assert(h3 =~= h2.subrange(0, e + 1));
                },
                None => {
                    lemma_piece_sub(h2, 0, h2.len() as int);
                    assert(h3 =~= h2.subrange(0, h2.len() as int));
                },
            }
            lemma_trim_piece(h3);
            lemma_piece_trans(h3, h2, h);
            lemma_piece_trans(h3, h, content);
            lemma_piece_trans(trim(h3), h3, content);
        },
    }
}

/// Trimming keeps a text's first and last characters when they are not
/// whitespace.
proof fn lemma_trim_keeps_ends(h: Seq<char>)
    requires
        h.len() > 0,
    ensures
        !is_ws(h[0]) ==> trim(h).len() > 0 && trim(h)[0] == h[0],
        !is_ws(h.last()) ==> trim(h).len() > 0 && trim(h).last() == h.last(),
{
    lemma_skip_ws(h, 0);
    let t = trim_start(h);
    let a = skip_ws(h, 0);
    if !is_ws(h[0]) {
        assert(a == 0);
        assert(t =~= h);
    }
    if !is_ws(h.last()) {
        if a == h.len() {
            assert(is_ws(h[h.len() - 1]));
        }
        assert(t.last() == h.last());
    }
    if t.len() > 0 {
        lemma_back_skip_ws(t, t.len() as int);
        if !is_ws(t.last()) {
            assert(back_skip_ws(t, t.len() as int) == t.len());
            assert(trim(h) =~= t);
        }
        if !is_ws(t[0]) {
            if back_skip_ws(t, t.len() as int) == 0 {
                assert(is_ws(t[0]));
            }
        }
    }
}

/// A trimmed text is a piece of the text.
proof fn lemma_trim_is_subrange(h: Seq<char>)
    ensures
        forall|j: int| 0 <= j < trim(h).len() ==> exists|k: int| 0 <= k < h.len() && #[trigger] trim(h)[j] == h[k],
{
    lemma_skip_ws(h, 0);
    let t = trim_start(h);
    lemma_back_skip_ws(t, t.len() as int);
    assert forall|j: int| 0 <= j < trim(h).len() implies exists|k: int| 0 <= k < h.len() && #[trigger] trim(h)[j] == h[k] by {
        assert(trim(h)[j] == h[skip_ws(h, 0) + j]);
    }
}

/// The HTML in a model reply (see `html_in`).
#[verifier::rlimit(40)]
pub fn extract_html(content: &str) -> (r: String)
    ensures
        r@ == html_in(content@),
{
    let v = chars_of(content);
    let (a, b) = trim_bounds(&v);
    let mut h: Vec<char> = Vec::new();
    extend_range(&mut h, &v, a, b);
    let ghost t = trim(content@);
    assert(h@ == t);
    let fence_v = vec!['`', '`', '`'];
    assert(fence_v@ =~= fence());
    if starts_with_exec(&h, &fence_v) {
        let nl = vec!['\n'];
        assert(nl@ =~= seq!['\n']);
        let mut h1: Vec<char> = Vec::new();
        match find_from_exec(&h, &nl, 0) {
            Some(p) => {
                extend_range(&mut h1, &h, p + 1, h.len());
                assert(h1@ =~= h@.skip(p + 1));
            },
            None => {
                extend_range(&mut h1, &h, 0, h.len());
                assert(h1@ =~= h@);
            },
        }
        if ends_with_exec(&h1, &fence_v) {
            let cut = h1.len() - 3;
            let e = back_skip_ws_exec(&h1, cut);
            proof { lemma_back_skip_ws(h1@, cut as int); }
            let mut h2: Vec<char> = Vec::new();
            extend_range(&mut h2, &h1, 0, e);
            proof {
                let x = h1@.take(cut as int);
                assert(x.len() == cut);
                assert forall|k: int| 0 <= k <= cut implies crate::text::back_skip_ws(x, k)
                    == crate::text::back_skip_ws(h1@, k) by {
                    lemma_back_skip_agree(x, h1@, k);
                }
                assert(h2@ =~= trim_end(x));
            }
            h = h2;
        } else {
            h = h1;
        }
    }
    assert(h@ == unfenced(t));
    let lt = vec!['<'];
    assert(lt@ =~= seq!['<']);
    let s = match find_from_exec(&h, &lt, 0) {
        Some(s) => s,
        None => {
            return String::new();
        },
    };
    let mut h2: Vec<char> = Vec::new();
    extend_range(&mut h2, &h, s, h.len());
    assert(h2@ =~= h@.skip(s as int));
    let gt = vec!['>'];
    assert(gt@ =~= seq!['>']);
    let mut h3: Vec<char> = Vec::new();
    match rfind_exec(&h2, &gt) {
        Some(e) => {
            extend_range(&mut h3, &h2, 0, e + 1);
            assert(h3@ =~= h2@.take(e + 1));
        },
        None => {
            extend_range(&mut h3, &h2, 0, h2.len());
            assert(h3@ =~= h2@);
        },
    }
    let (x, y) = trim_bounds(&h3);
    string_of_range(&h3, x, y)
}

/// `back_skip_ws` only looks at the characters before its index.
proof fn lemma_back_skip_agree(x: Seq<char>, y: Seq<char>, k: int)
    requires
        0 <= k <= x.len(),
        x.len() <= y.len(),
        forall|i: int| 0 <= i < x.len() ==> x[i] == y[i],
    ensures
        crate::text::back_skip_ws(x, k) == crate::text::back_skip_ws(y, k),
    decreases k,
{
    if k > 0 {
        lemma_back_skip_agree(x, y, k - 1);
    }
}

/// The name shown for a template: the first line of its text, trimmed, or
/// the id when that is empty.
pub open spec fn template_name(id: Seq<char>, text: Seq<char>) -> Seq<char> {
    let first = match first_line(text) {
        Some(l) => trim(l),
        None => Seq::empty(),
    };
    if first.len() > 0 { first } else { id }
}

/// The name shown for a template (see `template_name`).
pub fn template_display_name(id: &str, text: &str) -> (r: String)
    ensures
        r@ == template_name(id@, text@),
{
    let v = chars_of(text);
    match first_line_exec(&v) {
        Some(l) => {
            let (a, b) = trim_bounds(&l);
            if b > a {
                return string_of_range(&l, a, b);
            }
            id.to_owned()
        },
        None => id.to_owned(),
    }
}

} // verus!
