//! Source materials: splitting their text into chunks, assembling the
//! reference-material context for the writing prompt, and extracting text
//! from uploaded files.

use vstd::prelude::*;
use crate::codec::{
    decode_utf8_lossy, extension, file_extension, lowercase,
    open_zip, read_zip_text, to_lowercase, utf8_lossy, zip_entry_text, zip_open_error, ZipStage,
};
use crate::text::{
    same_chars,
    delimits,
    ends_with, ends_with_exec, extend_all, extend_range, find_from, find_from_exec, replace,
    replace_exec, string_of, char_width, char_width_exec, lemma_utf8_len_concat, chars_of, lemma_skip_non_ws, lemma_skip_ws, lemma_utf8_len_ge_len, push_char, push_str,
    skip_non_ws_exec, skip_ws_exec, split, split_bounds, str_byte_len, string_of_range, trim,
    trim_string, utf8_len, words, words_from, has_ws, lemma_trim_twice, lemma_trim_word_space,
    lemma_utf8_len_push, lemma_words_clean, occurs_at, lemma_find_from_exact, lemma_find_from_shift,
};

verus! {

/// Chunk size used by a new material library, in bytes.
pub const DEFAULT_CHUNK_SIZE: usize = 2000;
/// Context budget used by `build_context`, in bytes.
pub const DEFAULT_CONTEXT_CHARS: usize = 20000;

// ---------------------------------------------------------------------------
// Chunking
// ---------------------------------------------------------------------------

/// The state while chunking: the chunks emitted so far and the chunk being built.
pub type ChunkState = (Seq<Seq<char>>, Seq<char>);

/// Emits the chunk being built (as given), if it is not empty.
pub open spec fn flush_raw(st: ChunkState) -> ChunkState {
    if st.1.len() > 0 {
        (st.0.push(st.1), Seq::empty())
    } else {
        st
    }
}

/// One word of an over-long paragraph: when it does not fit beside the chunk
/// being built, that chunk is emitted trimmed; the word and a space are then
/// appended.
pub open spec fn word_step(st: ChunkState, w: Seq<char>, size: nat) -> ChunkState {
    let st1 = if utf8_len(st.1) + utf8_len(w) + 1 > size && st.1.len() > 0 {
        (st.0.push(trim(st.1)), Seq::<char>::empty())
    } else {
        st
    };
    (st1.0, st1.1 + w + seq![' '])
}

/// `word_step` over a sequence of words, from the left.
pub open spec fn fold_words(st: ChunkState, ws: Seq<Seq<char>>, size: nat) -> ChunkState
    decreases ws.len(),
{
    if ws.len() == 0 {
        st
    } else {
        fold_words(word_step(st, ws[0], size), ws.drop_first(), size)
    }
}

/// One paragraph: an over-long one is cut at word boundaries; one that does
/// not fit beside the chunk being built starts a new chunk; otherwise it is
/// joined to the chunk being built with a blank line.
pub open spec fn para_step(st: ChunkState, para: Seq<char>, size: nat) -> ChunkState {
    if utf8_len(para) > size {
        fold_words(flush_raw(st), words(para), size)
    } else if utf8_len(st.1) + utf8_len(para) + 2 > size {
        (flush_raw(st).0, para)
    } else if st.1.len() > 0 {
        (st.0, st.1 + seq!['\n', '\n'] + para)
    } else {
        (st.0, para)
    }
}

/// `para_step` over a sequence of paragraphs, from the left.
pub open spec fn fold_paras(st: ChunkState, ps: Seq<Seq<char>>, size: nat) -> ChunkState
    decreases ps.len(),
{
    if ps.len() == 0 {
        st
    } else {
        fold_paras(para_step(st, ps[0], size), ps.drop_first(), size)
    }
}

/// The chunks of `text` for a chunk size of `size` bytes: paragraphs
/// (separated by blank lines) are packed into chunks, over-long paragraphs are
/// cut at word boundaries, and the last chunk is trimmed.
pub open spec fn chunks_of(text: Seq<char>, size: nat) -> Seq<Seq<char>> {
    let st = fold_paras((Seq::empty(), Seq::empty()), split(text, seq!['\n', '\n']), size);
    if st.1.len() > 0 {
        st.0.push(trim(st.1))
    } else {
        st.0
    }
}

/// A chunk that fits the chunk size, or that is a single word too long to
/// be cut.
pub open spec fn fits_or_one_word(c: Seq<char>, size: nat) -> bool {
    utf8_len(c) <= size || !has_ws(trim(c))
}

/// Every chunk emitted and the chunk being built fit (see `fits_or_one_word`).
pub open spec fn chunking_fits(st: ChunkState, size: nat) -> bool {
    &&& forall|i: int| 0 <= i < st.0.len() ==> fits_or_one_word(#[trigger] st.0[i], size)
    &&& fits_or_one_word(st.1, size)
}

proof fn lemma_trim_fits(c: Seq<char>, size: nat)
    requires
        fits_or_one_word(c, size),
    ensures
        fits_or_one_word(trim(c), size),
{
    lemma_trim_twice(c);
}

proof fn lemma_push_fits(cs: Seq<Seq<char>>, c: Seq<char>, size: nat)
    requires
        forall|i: int| 0 <= i < cs.len() ==> fits_or_one_word(#[trigger] cs[i], size),
        fits_or_one_word(c, size),
    ensures
        forall|i: int| 0 <= i < cs.push(c).len() ==> fits_or_one_word(#[trigger] cs.push(c)[i], size),
{
    assert forall|i: int| 0 <= i < cs.push(c).len() implies fits_or_one_word(#[trigger] cs.push(c)[i], size) by {
        if i < cs.len() {
            assert(cs.push(c)[i] == cs[i]);
        }
    }
}

proof fn lemma_flush_fits(st: ChunkState, size: nat)
    requires
        chunking_fits(st, size),
    ensures
        chunking_fits(flush_raw(st), size),
        flush_raw(st).1.len() == 0,
{
    if st.1.len() > 0 {
        lemma_push_fits(st.0, st.1, size);
    }
    assert(utf8_len(Seq::<char>::empty()) == 0);
}

proof fn lemma_word_step_fits(st: ChunkState, w: Seq<char>, size: nat)
    requires
        chunking_fits(st, size),
        w.len() > 0,
        !has_ws(w),
    ensures
        chunking_fits(word_step(st, w, size), size),
{
    let flush = utf8_len(st.1) + utf8_len(w) + 1 > size && st.1.len() > 0;
    if flush {
        lemma_trim_fits(st.1, size);
        lemma_push_fits(st.0, trim(st.1), size);
        assert(Seq::<char>::empty() + w =~= w);
    }
    let st1 = if flush {
        (st.0.push(trim(st.1)), Seq::<char>::empty())
    } else {
        st
    };
    let nc = st1.1 + w + seq![' '];
    if st1.1.len() == 0 {
        assert(nc =~= w.push(' '));
        lemma_trim_word_space(w);
    } else {
        lemma_utf8_len_concat(st1.1, w);
        lemma_utf8_len_push(st1.1 + w, ' ');
        assert(st1.1 + w + seq![' '] =~= (st1.1 + w).push(' '));
    }
}

proof fn lemma_fold_words_fits(st: ChunkState, ws: Seq<Seq<char>>, size: nat)
    requires
        chunking_fits(st, size),
        forall|j: int| 0 <= j < ws.len() ==> (#[trigger] ws[j]).len() > 0 && !has_ws(ws[j]),
    ensures
        chunking_fits(fold_words(st, ws, size), size),
    decreases ws.len(),
{
    if ws.len() > 0 {
        lemma_word_step_fits(st, ws[0], size);
        assert forall|j: int| 0 <= j < ws.drop_first().len() implies (#[trigger] ws.drop_first()[j]).len() > 0
            && !has_ws(ws.drop_first()[j]) by {
            assert(ws.drop_first()[j] == ws[j + 1]);
        }
        lemma_fold_words_fits(word_step(st, ws[0], size), ws.drop_first(), size);
    }
}

proof fn lemma_para_step_fits(st: ChunkState, para: Seq<char>, size: nat)
    requires
        chunking_fits(st, size),
    ensures
        chunking_fits(para_step(st, para, size), size),
{
    if utf8_len(para) > size {
        lemma_flush_fits(st, size);
        lemma_words_clean(para, 0);
        lemma_fold_words_fits(flush_raw(st), words(para), size);
    } else if utf8_len(st.1) + utf8_len(para) + 2 > size {
        lemma_flush_fits(st, size);
    } else if st.1.len() > 0 {
        lemma_utf8_len_concat(st.1, seq!['\n', '\n']);
        lemma_utf8_len_concat(st.1 + seq!['\n', '\n'], para);
        lemma_utf8_len_push(Seq::<char>::empty(), '\n');
        assert(Seq::<char>::empty().push('\n') =~= seq!['\n']);
        lemma_utf8_len_push(seq!['\n'], '\n');
        assert(seq!['\n'].push('\n') =~= seq!['\n', '\n']);
        assert(utf8_len(Seq::<char>::empty()) == 0);
        assert(utf8_len(seq!['\n', '\n']) == 2);
    }
}

proof fn lemma_fold_paras_fits(st: ChunkState, ps: Seq<Seq<char>>, size: nat)
    requires
        chunking_fits(st, size),
    ensures
        chunking_fits(fold_paras(st, ps, size), size),
    decreases ps.len(),
{
    if ps.len() > 0 {
        lemma_para_step_fits(st, ps[0], size);
        lemma_fold_paras_fits(para_step(st, ps[0], size), ps.drop_first(), size);
    }
}

/// Every chunk of a text is at most the chunk size in bytes, unless it is a
/// single word longer than that (a chunk holding two or more words always fits).
pub proof fn law_chunks_fit(text: Seq<char>, size: nat)
    ensures
        forall|i: int| 0 <= i < chunks_of(text, size).len() ==> {
            let c = #[trigger] chunks_of(text, size)[i];
            utf8_len(c) <= size || !has_ws(trim(c))
        },
{
    let st0: ChunkState = (Seq::empty(), Seq::empty());
    assert(utf8_len(Seq::<char>::empty()) == 0);
    lemma_fold_paras_fits(st0, split(text, seq!['\n', '\n']), size);
    let st = fold_paras(st0, split(text, seq!['\n', '\n']), size);
    if st.1.len() > 0 {
        lemma_trim_fits(st.1, size);
        lemma_push_fits(st.0, trim(st.1), size);
    }
    assert forall|i: int| 0 <= i < chunks_of(text, size).len() implies fits_or_one_word(
        #[trigger] chunks_of(text, size)[i],
        size,
    ) by {}
}

/// Byte length of a `String`.
pub fn string_byte_len(s: &String) -> (n: usize)
    ensures
        n == utf8_len(s@),
{
    str_byte_len(s.as_str())
}

/// Splits `text` into chunks of about `chunk_size` bytes (see `chunks_of`).
pub fn chunk_text(text: &str, chunk_size: usize) -> (chunks: Vec<String>)
    ensures
        chunks.deep_view() == chunks_of(text@, chunk_size as nat),
{
    let v = chars_of(text);
    let sep = vec!['\n', '\n'];
    assert(sep@ =~= seq!['\n', '\n']);
    let parts = split_bounds(&v, &sep);
    let ghost paras = split(v@, sep@);
    let mut chunks: Vec<String> = Vec::new();
    let mut current = String::new();
    let mut idx: usize = 0;
    assert(chunks.deep_view() =~= Seq::<Seq<char>>::empty());
    assert(current@ =~= Seq::<char>::empty());
    assert(paras.skip(0) =~= paras);
    while idx < parts.len()
        invariant
            idx <= parts.len(),
            v@ == text@,
            paras == split(v@, seq!['\n', '\n']),
            delimits(parts@, v@, paras),
            fold_paras((chunks.deep_view(), current@), paras.skip(idx as int), chunk_size as nat)
                == fold_paras((Seq::empty(), Seq::empty()), paras, chunk_size as nat),
        decreases parts.len() - idx,
    {
        let (a, b) = parts[idx];
        let para = string_of_range(&v, a, b);
        assert(para@ == paras[idx as int]) by {
            assert(parts@[idx as int].0 <= parts@[idx as int].1);
        }
        let ghost st0 = (chunks.deep_view(), current@);
        proof {
            assert(paras.skip(idx as int).drop_first() =~= paras.skip(idx + 1));
            assert(paras.skip(idx as int)[0] == paras[idx as int]);
        }
        let para_len = string_byte_len(&para);
        let cur_len = string_byte_len(&current);
        if para_len > chunk_size {
            if cur_len > 0 {
                proof { lemma_utf8_len_ge_len(current@); }
                chunks.push(current.clone());
                current = String::new();
            }
            proof {
                assert(chunks.deep_view() =~= flush_raw(st0).0);
            }
            let pv = chars_of(para.as_str());
            let mut i: usize = 0;
            while i < pv.len()
                invariant
                    i <= pv.len(),
                    fold_words((chunks.deep_view(), current@), words_from(pv@, i as int), chunk_size as nat)
                        == fold_words(flush_raw(st0), words(pv@), chunk_size as nat),
                ensures
                    (chunks.deep_view(), current@) == fold_words(flush_raw(st0), words(pv@), chunk_size as nat),
                decreases pv.len() - i,
            {
                let a2 = skip_ws_exec(&pv, i);
                proof { lemma_skip_ws(pv@, i as int); }
                if a2 >= pv.len() {
                    assert(words_from(pv@, i as int) =~= Seq::<Seq<char>>::empty());
                    break;
                }
                let b2 = skip_non_ws_exec(&pv, a2);
                proof { lemma_skip_non_ws(pv@, a2 as int); }
                let word = string_of_range(&pv, a2, b2);
                let ghost ws = words_from(pv@, i as int);
                assert(ws == seq![pv@.subrange(a2 as int, b2 as int)] + words_from(pv@, b2 as int));
                assert(ws[0] == word@);
                assert(ws.drop_first() =~= words_from(pv@, b2 as int));
                let ghost stw = (chunks.deep_view(), current@);
                let w_len = string_byte_len(&word);
                let c_len = string_byte_len(&current);
                if (c_len as u128) + (w_len as u128) + 1 > (chunk_size as u128) && (c_len > 0) {
                    proof { lemma_utf8_len_ge_len(current@); }
                    let t = trim_string(current.as_str());
                    chunks.push(t);
                    current = String::new();
                } else {
                    proof { lemma_utf8_len_ge_len(current@); }
                }
                push_str(&mut current, word.as_str());
                push_char(&mut current, ' ');
                proof {
                    assert(chunks.deep_view() =~= word_step(stw, word@, chunk_size as nat).0);
                    assert(current@ =~= word_step(stw, word@, chunk_size as nat).1);
                }
                i = b2;
            }
            proof {
                if i >= pv.len() {
                    assert(words_from(pv@, i as int) =~= Seq::<Seq<char>>::empty());
                }
                assert((chunks.deep_view(), current@) == para_step(st0, paras[idx as int], chunk_size as nat));
            }
        } else if (cur_len as u128) + (para_len as u128) + 2 > (chunk_size as u128) {
            if cur_len > 0 {
                proof { lemma_utf8_len_ge_len(current@); }
                chunks.push(current.clone());
            }
            proof { lemma_utf8_len_ge_len(current@); }
            current = para;
            proof {
                assert(chunks.deep_view() =~= para_step(st0, paras[idx as int], chunk_size as nat).0);
                assert((chunks.deep_view(), current@) == para_step(st0, paras[idx as int], chunk_size as nat));
            }
        } else {
            proof { lemma_utf8_len_ge_len(current@); }
            if cur_len > 0 {
                push_char(&mut current, '\n');
                push_char(&mut current, '\n');
            }
            push_str(&mut current, para.as_str());
            proof {
                assert(current@ =~= para_step(st0, paras[idx as int], chunk_size as nat).1);
                assert((chunks.deep_view(), current@) == para_step(st0, paras[idx as int], chunk_size as nat));
            }
        }
        proof {
            assert(fold_paras(st0, paras.skip(idx as int), chunk_size as nat) == fold_paras(
                para_step(st0, paras.skip(idx as int)[0], chunk_size as nat),
                paras.skip(idx as int).drop_first(),
                chunk_size as nat,
            ));
        }
        idx = idx + 1;
    }
    proof {
        assert(paras.skip(idx as int) =~= Seq::<Seq<char>>::empty());
    }
    if string_byte_len(&current) > 0 {
        let t = trim_string(current.as_str());
        chunks.push(t);
    }
    chunks
}


// ---------------------------------------------------------------------------
// Truncation at a character boundary
// ---------------------------------------------------------------------------

/// How many leading characters of `s` fit in `max` bytes.
pub open spec fn fit_count(s: Seq<char>, max: int) -> nat
    decreases s.len(),
{
    if s.len() == 0 || char_width(s[0]) > max {
        0
    } else {
        1 + fit_count(s.drop_first(), max - char_width(s[0]))
    }
}

/// The longest prefix of `s` whose UTF-8 encoding fits in `max` bytes.
pub open spec fn safe_prefix(s: Seq<char>, max: int) -> Seq<char> {
    s.take(fit_count(s, max) as int)
}

pub proof fn lemma_fit_count(s: Seq<char>, max: int)
    ensures
        fit_count(s, max) <= s.len(),
        utf8_len(s.take(fit_count(s, max) as int)) <= max || (max < 0 && fit_count(s, max) == 0),
        fit_count(s, max) < s.len() ==> utf8_len(s.take(fit_count(s, max) + 1int)) > max,
        utf8_len(s) <= max ==> fit_count(s, max) == s.len(),
    decreases s.len(),
{
    if s.len() > 0 {
        let w = char_width(s[0]);
        let rest = s.drop_first();
        if w <= max {
            lemma_fit_count(rest, max - w);
            let k = fit_count(rest, max - w) as int;
            assert(s.take(k + 1) =~= seq![s[0]] + rest.take(k));
            lemma_utf8_len_concat(seq![s[0]], rest.take(k));
            assert(seq![s[0]].drop_first() =~= Seq::<char>::empty());
            assert(utf8_len(seq![s[0]]) == w + utf8_len(seq![s[0]].drop_first()));
            if k < rest.len() {
                assert(s.take(k + 2) =~= seq![s[0]] + rest.take(k + 1));
                lemma_utf8_len_concat(seq![s[0]], rest.take(k + 1));
            }
            if utf8_len(s) <= max {
                assert(utf8_len(s) == w + utf8_len(rest));
            }
        } else {
            assert(s.take(1) =~= seq![s[0]]);
            assert(seq![s[0]].drop_first() =~= Seq::<char>::empty());
            assert(utf8_len(seq![s[0]]) == w + utf8_len(seq![s[0]].drop_first()));
            assert(s.take(0) =~= Seq::<char>::empty());
            lemma_utf8_len_ge_len(rest);
        }
    } else {
        assert(s.take(0) =~= Seq::<char>::empty());
    }
}

/// The longest prefix of `s` that fits in `max_bytes` bytes without cutting
/// a character: `s` itself when it fits.
pub fn safe_truncate(s: &str, max_bytes: usize) -> (r: String)
    ensures
        r@ == safe_prefix(s@, max_bytes as int),
        s@.take(r@.len() as int) == r@,
        utf8_len(r@) <= max_bytes,
        r@.len() < s@.len() ==> utf8_len(s@.take(r@.len() + 1int)) > max_bytes,
        utf8_len(s@) <= max_bytes ==> r@ == s@,
{
    let v = chars_of(s);
    let mut used: usize = 0;
    let mut k: usize = 0;
    let ghost sv = v@;
    assert(sv.skip(0) =~= sv);
    while k < v.len()
        invariant
            sv == v@,
            k <= v.len(),
            used <= max_bytes,
            fit_count(sv, max_bytes as int) == k + fit_count(sv.skip(k as int), max_bytes - used),
        ensures
            k <= v.len(),
            fit_count(sv, max_bytes as int) == k,
        decreases v.len() - k,
    {
        if k == v.len() {
            assert(sv.skip(k as int) =~= Seq::<char>::empty());
        }
        let w = char_width_exec(v[k]);
        assert(sv.skip(k as int)[0] == sv[k as int]);
        if w > max_bytes - used {
            assert(fit_count(sv.skip(k as int), max_bytes - used) == 0);
            break;
        }
        assert(sv.skip(k as int).drop_first() =~= sv.skip(k + 1));
        used = used + w;
        k = k + 1;
    }
    proof {
        lemma_fit_count(s@, max_bytes as int);
    }
    let r = string_of_range(&v, 0, k);
    assert(r@ =~= s@.take(k as int));
    r
}

// ---------------------------------------------------------------------------
// The material library and the reference-material context
// ---------------------------------------------------------------------------

/// An uploaded photo.
pub struct PhotoEntry {
    pub name: String,
    pub data_url: String,
    pub description: String,
    pub width: u32,
    pub height: u32,
    /// Whether the user marked the photo as one the layout must use.
    pub required: bool,
}

/// A material: its name, its text, and that text split into chunks.
pub struct Material {
    pub name: String,
    pub content: String,
    pub chunks: Vec<String>,
}

/// The materials of one writing task.
pub struct MaterialLibrary {
    materials: Vec<Material>,
    chunk_size: usize,
}

/// The header line that introduces a material in the context.
pub open spec fn header_of(name: Seq<char>) -> Seq<char> {
    "--- 素材: "@ + name + " ---\n"@
}

/// Building the context: the text so far, the bytes still allowed, and
/// whether the assembly has stopped.
pub type ContextState = (Seq<char>, nat, bool);

/// One chunk of a material: appended with a line feed when it is shorter than
/// the remaining budget; otherwise its fitting prefix (three bytes short of the
/// budget) is appended with "...\n" and the budget is exhausted.
pub open spec fn context_chunk_step(st: ContextState, c: Seq<char>) -> ContextState {
    if st.2 {
        st
    } else if utf8_len(c) >= st.1 {
        let keep = if st.1 >= 3 { st.1 - 3 } else { 0 };
        (st.0 + safe_prefix(c, keep as int) + seq!['.', '.', '.', '\n'], 0, true)
    } else {
        (st.0 + c + seq!['\n'], (st.1 - utf8_len(c) - 1) as nat, false)
    }
}

/// `context_chunk_step` over the chunks of a material, from the left.
pub open spec fn fold_context_chunks(st: ContextState, cs: Seq<Seq<char>>) -> ContextState
    decreases cs.len(),
{
    if cs.len() == 0 {
        st
    } else {
        fold_context_chunks(context_chunk_step(st, cs[0]), cs.drop_first())
    }
}

/// One material: stops when the budget is spent or its header does not fit;
/// otherwise appends the header, its chunks, and a line feed.
pub open spec fn context_material_step(st: ContextState, m: (Seq<char>, Seq<Seq<char>>)) -> ContextState {
    if st.2 || st.1 == 0 || utf8_len(header_of(m.0)) >= st.1 {
        (st.0, st.1, true)
    } else {
        let inner = fold_context_chunks(
            (st.0 + header_of(m.0), (st.1 - utf8_len(header_of(m.0))) as nat, false),
            m.1,
        );
        (inner.0 + seq!['\n'], inner.1, false)
    }
}

/// `context_material_step` over the materials, from the left.
pub open spec fn fold_context(st: ContextState, ms: Seq<(Seq<char>, Seq<Seq<char>>)>) -> ContextState
    decreases ms.len(),
{
    if ms.len() == 0 {
        st
    } else {
        fold_context(context_material_step(st, ms[0]), ms.drop_first())
    }
}

/// The reference-material context for materials given as (name, chunks),
/// within a budget of `max` bytes: empty when nothing fits, otherwise the
/// assembled text under a "[参考资料]" line.
pub open spec fn context_of(ms: Seq<(Seq<char>, Seq<Seq<char>>)>, max: nat) -> Seq<char> {
    let body = fold_context((Seq::empty(), max, false), ms).0;
    if body.len() == 0 {
        Seq::empty()
    } else {
        "[参考资料]\n"@ + body
    }
}

/// The materials (name, content) chunked with the library's chunk size.
pub open spec fn chunked(ms: Seq<(Seq<char>, Seq<char>)>) -> Seq<(Seq<char>, Seq<Seq<char>>)> {
    ms.map_values(|m: (Seq<char>, Seq<char>)| (m.0, chunks_of(m.1, DEFAULT_CHUNK_SIZE as nat)))
}

impl View for MaterialLibrary {
    /// The materials, in the order they were added, as (name, content).
    type V = Seq<(Seq<char>, Seq<char>)>;

    closed spec fn view(&self) -> Self::V {
        self.materials@.map_values(|m: Material| (m.name@, m.content@))
    }
}

impl MaterialLibrary {
    #[verifier::type_invariant]
    closed spec fn chunks_match(&self) -> bool {
        &&& self.chunk_size == DEFAULT_CHUNK_SIZE
        &&& forall|i: int| 0 <= i < self.materials@.len() ==> #[trigger] self.materials@[i].chunks.deep_view()
            == chunks_of(self.materials@[i].content@, DEFAULT_CHUNK_SIZE as nat)
    }

    /// An empty library.
    pub fn new() -> (lib: Self)
        ensures
            lib@ == Seq::<(Seq<char>, Seq<char>)>::empty(),
    {
        let lib = MaterialLibrary { materials: Vec::new(), chunk_size: DEFAULT_CHUNK_SIZE };
        assert(lib@ =~= Seq::<(Seq<char>, Seq<char>)>::empty());
        lib
    }

    /// Adds a material with the given name and text at the end.
    pub fn add_text(&mut self, name: &str, content: &str)
        ensures
            final(self)@ == old(self)@.push((name@, content@)),
    {
        proof { use_type_invariant(&*self); }
        let chunks = chunk_text(content, self.chunk_size);
        let mut ms: Vec<Material> = Vec::new();
        std::mem::swap(&mut ms, &mut self.materials);
        let ghost before = ms@;
        ms.push(Material { name: name.to_owned(), content: content.to_owned(), chunks });
        proof {
            assert forall|i: int| 0 <= i < ms@.len() implies #[trigger] ms@[i].chunks.deep_view()
                == chunks_of(ms@[i].content@, DEFAULT_CHUNK_SIZE as nat) by {
                if i < before.len() {
                    assert(ms@[i] == before[i]);
                }
            }
        }
        self.materials = ms;
        assert(self@ =~= old(self)@.push((name@, content@)));
    }

    /// Whether the library holds no material.
    pub fn is_empty(&self) -> (b: bool)
        ensures
            b == (self@.len() == 0),
    {
        self.materials.len() == 0
    }

    /// The reference-material context within the default budget.
    pub fn build_context(&self) -> (r: String)
        ensures
            r@ == context_of(chunked(self@), DEFAULT_CONTEXT_CHARS as nat),
    {
        self.build_context_with_limit(DEFAULT_CONTEXT_CHARS)
    }

    /// The reference-material context within `max_chars` bytes (see `context_of`).
    pub fn build_context_with_limit(&self, max_chars: usize) -> (r: String)
        ensures
            r@ == context_of(chunked(self@), max_chars as nat),
    {
        proof { use_type_invariant(self); }
        let ghost ms = chunked(self@);
        assert(ms.len() == self.materials@.len());
        assert forall|i: int| 0 <= i < self.materials@.len() implies #[trigger] ms[i] == (
            self.materials@[i].name@,
            self.materials@[i].chunks.deep_view(),
        ) by {}
        let mut result = String::new();
        let mut remaining: usize = max_chars;
        let mut stopped = false;
        let mut mi: usize = 0;
        assert(ms.skip(0) =~= ms);
        while mi < self.materials.len()
            invariant
                mi <= self.materials@.len(),
                ms.len() == self.materials@.len(),
                forall|i: int| 0 <= i < self.materials@.len() ==> #[trigger] ms[i] == (
                    self.materials@[i].name@,
                    self.materials@[i].chunks.deep_view(),
                ),
                fold_context((result@, remaining as nat, stopped), ms.skip(mi as int))
                    == fold_context((Seq::empty(), max_chars as nat, false), ms),
                stopped ==> fold_context((result@, remaining as nat, stopped), ms.skip(mi as int))
                    == (result@, remaining as nat, stopped),
            decreases self.materials.len() - mi,
        {
            let ghost st0 = (result@, remaining as nat, stopped);
            let ghost m = ms[mi as int];
            proof {
                assert(ms.skip(mi as int)[0] == m);
                assert(ms.skip(mi as int).drop_first() =~= ms.skip(mi + 1));
                assert(fold_context(st0, ms.skip(mi as int)) == fold_context(
                    context_material_step(st0, ms.skip(mi as int)[0]),
                    ms.skip(mi as int).drop_first(),
                ));
            }
            if stopped {
                mi = mi + 1;
                continue;
            }
            let mat = &self.materials[mi];
            let mut header = String::new();
            push_str(&mut header, "--- 素材: ");
            push_str(&mut header, mat.name.as_str());
            push_str(&mut header, " ---\n");
            let hlen = string_byte_len(&header);
            assert(m == (mat.name@, mat.chunks.deep_view()));
            assert(header@ =~= header_of(m.0));
            if remaining == 0 || hlen >= remaining {
                stopped = true;
                proof { lemma_fold_context_stopped((result@, remaining as nat, true), ms.skip(mi + 1)); }
                mi = mi + 1;
                continue;
            }
            push_str(&mut result, header.as_str());
            remaining = remaining - hlen;
            let ghost cs = m.1;
            let mut ci: usize = 0;
            let mut done = false;
            assert(cs.skip(0) =~= cs);
            while ci < mat.chunks.len()
                invariant
                    ci <= mat.chunks@.len(),
                    cs == mat.chunks.deep_view(),
                    fold_context_chunks((result@, remaining as nat, done), cs.skip(ci as int))
                        == fold_context_chunks((st0.0 + header_of(m.0), (st0.1 - utf8_len(header_of(m.0))) as nat, false), cs),
                    done ==> fold_context_chunks((result@, remaining as nat, done), cs.skip(ci as int))
                        == (result@, remaining as nat, done),
                decreases mat.chunks.len() - ci,
            {
                let ghost cst = (result@, remaining as nat, done);
                proof {
                    assert(cs.skip(ci as int)[0] == cs[ci as int]);
                    assert(cs.skip(ci as int).drop_first() =~= cs.skip(ci + 1));
                }
                if done {
                    ci = ci + 1;
                    continue;
                }
                let chunk = &mat.chunks[ci];
                assert(chunk@ == cs[ci as int]);
                let clen = string_byte_len(chunk);
                if clen >= remaining {
                    let keep = if remaining >= 3 { remaining - 3 } else { 0 };
                    let t = safe_truncate(chunk.as_str(), keep);
                    push_str(&mut result, t.as_str());
                    push_char(&mut result, '.');
                    push_char(&mut result, '.');
                    push_char(&mut result, '.');
                    push_char(&mut result, '\n');
                    remaining = 0;
                    done = true;
                    proof {
                        assert(result@ =~= context_chunk_step(cst, cs[ci as int]).0);
                        lemma_fold_context_chunks_done((result@, 0, true), cs.skip(ci + 1));
                    }
                } else {
                    push_str(&mut result, chunk.as_str());
                    push_char(&mut result, '\n');
                    remaining = remaining - clen - 1;
                    proof {
                        assert(result@ =~= context_chunk_step(cst, cs[ci as int]).0);
                    }
                }
                ci = ci + 1;
            }
            proof {
                assert(cs.skip(ci as int) =~= Seq::<Seq<char>>::empty());
            }
            push_char(&mut result, '\n');
            assert((result@, remaining as nat, stopped) == context_material_step(st0, m));
            mi = mi + 1;
        }
        proof {
            assert(ms.skip(mi as int) =~= Seq::<(Seq<char>, Seq<Seq<char>>)>::empty());
        }
        if string_byte_len(&result) == 0 {
            proof { lemma_utf8_len_ge_len(result@); }
            String::new()
        } else {
            proof {
                lemma_utf8_len_ge_len(result@);
                if result@.len() == 0 {
                    assert(utf8_len(result@) == 0);
                }
            }
            let mut out = String::new();
            push_str(&mut out, "[参考资料]\n");
            push_str(&mut out, result.as_str());
            out
        }
    }
}

/// A library without materials gives no reference context; any other
/// context starts with the `[参考资料]` line.
pub proof fn law_context_heading(ms: Seq<(Seq<char>, Seq<char>)>, max: nat)
    ensures
        ms.len() == 0 ==> context_of(chunked(ms), max) == Seq::<char>::empty(),
        context_of(chunked(ms), max).len() > 0 ==> context_of(chunked(ms), max).take(7) == "[参考资料]\n"@,
{
    reveal_strlit("[参考资料]\n");
    if ms.len() == 0 {
        assert(chunked(ms) =~= Seq::<(Seq<char>, Seq<Seq<char>>)>::empty());
    }
    let body = fold_context((Seq::empty(), max, false), chunked(ms)).0;
    if body.len() > 0 {
        assert(("[参考资料]\n"@ + body).take(7) =~= "[参考资料]\n"@);
    }
}

/// Chunks, each followed by a line feed.
pub open spec fn chunk_lines(cs: Seq<Seq<char>>) -> Seq<char>
    decreases cs.len(),
{
    if cs.len() == 0 {
        Seq::empty()
    } else {
        cs[0] + seq!['\n'] + chunk_lines(cs.drop_first())
    }
}

/// Each material's header, all its chunks line by line, and a blank line.
pub open spec fn material_blocks(ms: Seq<(Seq<char>, Seq<Seq<char>>)>) -> Seq<char>
    decreases ms.len(),
{
    if ms.len() == 0 {
        Seq::empty()
    } else {
        header_of(ms[0].0) + chunk_lines(ms[0].1) + seq!['\n'] + material_blocks(ms.drop_first())
    }
}

proof fn lemma_utf8_len_newline()
    ensures
        utf8_len(seq!['\n']) == 1,
{
    lemma_utf8_len_push(Seq::<char>::empty(), '\n');
    assert(Seq::<char>::empty().push('\n') =~= seq!['\n']);
}

proof fn lemma_fold_chunks_all(st: ContextState, cs: Seq<Seq<char>>)
    requires
        !st.2,
        utf8_len(chunk_lines(cs)) < st.1,
    ensures
        fold_context_chunks(st, cs) == (st.0 + chunk_lines(cs), (st.1 - utf8_len(chunk_lines(cs))) as nat, false),
    decreases cs.len(),
{
    if cs.len() == 0 {
        assert(st.0 + Seq::<char>::empty() =~= st.0);
    } else {
        let c = cs[0];
        let rest = chunk_lines(cs.drop_first());
        lemma_utf8_len_newline();
        lemma_utf8_len_concat(c, seq!['\n']);
        lemma_utf8_len_concat(c + seq!['\n'], rest);
        let next = (st.0 + c + seq!['\n'], (st.1 - utf8_len(c) - 1) as nat, false);
        assert(context_chunk_step(st, c) == next);
        lemma_fold_chunks_all(next, cs.drop_first());
        assert(next.0 + rest =~= st.0 + chunk_lines(cs));
    }
}

proof fn lemma_fold_context_all(st: ContextState, ms: Seq<(Seq<char>, Seq<Seq<char>>)>)
    requires
        !st.2,
        utf8_len(material_blocks(ms)) < st.1,
    ensures
        fold_context(st, ms).0 == st.0 + material_blocks(ms),
    decreases ms.len(),
{
    if ms.len() == 0 {
        assert(st.0 + Seq::<char>::empty() =~= st.0);
    } else {
        let m = ms[0];
        let h = header_of(m.0);
        let cl = chunk_lines(m.1);
        let rest = material_blocks(ms.drop_first());
        lemma_utf8_len_newline();
        lemma_utf8_len_concat(h, cl);
        lemma_utf8_len_concat(h + cl, seq!['\n']);
        lemma_utf8_len_concat(h + cl + seq!['\n'], rest);
        let start = (st.0 + h, (st.1 - utf8_len(h)) as nat, false);
        lemma_fold_chunks_all(start, m.1);
        let inner = fold_context_chunks(start, m.1);
        let next = (inner.0 + seq!['\n'], inner.1, false);
        assert(context_material_step(st, m) == next);
        lemma_fold_context_all(next, ms.drop_first());
        assert(next.0 + rest =~= st.0 + material_blocks(ms));
    }
}

/// Every chunk of every material reaches the context when all of them fit:
/// if the materials' headers, chunks (each on its own line) and blank lines
/// take fewer bytes than the budget, the context is the `[参考资料]` line
/// followed by exactly that text, nothing dropped or cut.
pub proof fn law_context_holds_every_chunk(ms: Seq<(Seq<char>, Seq<Seq<char>>)>, max: nat)
    requires
        ms.len() > 0,
        utf8_len(material_blocks(ms)) < max,
    ensures
        context_of(ms, max) == "[参考资料]\n"@ + material_blocks(ms),
{
    lemma_fold_context_all((Seq::empty(), max, false), ms);
    assert(Seq::<char>::empty() + material_blocks(ms) =~= material_blocks(ms));
    reveal_strlit("--- 素材: ");
    assert(material_blocks(ms).len() > 0) by {
        assert(header_of(ms[0].0).len() > 0);
        assert(material_blocks(ms).len() >= header_of(ms[0].0).len());
    }
}

proof fn lemma_chunks_extend(st: ContextState, cs: Seq<Seq<char>>)
    ensures
        fold_context_chunks(st, cs).0.len() >= st.0.len(),
        fold_context_chunks(st, cs).0.take(st.0.len() as int) == st.0,
    decreases cs.len(),
{
    if cs.len() > 0 {
        let next = context_chunk_step(st, cs[0]);
        assert(next.0.take(st.0.len() as int) =~= st.0);
        lemma_chunks_extend(next, cs.drop_first());
        let f = fold_context_chunks(next, cs.drop_first()).0;
        assert(f.take(st.0.len() as int) =~= f.take(next.0.len() as int).take(st.0.len() as int));
    }
}

proof fn lemma_context_extend(st: ContextState, ms: Seq<(Seq<char>, Seq<Seq<char>>)>)
    ensures
        fold_context(st, ms).0.len() >= st.0.len(),
        fold_context(st, ms).0.take(st.0.len() as int) == st.0,
    decreases ms.len(),
{
    if ms.len() > 0 {
        let m = ms[0];
        let next = context_material_step(st, m);
        if !(st.2 || st.1 == 0 || utf8_len(header_of(m.0)) >= st.1) {
            let start = (st.0 + header_of(m.0), (st.1 - utf8_len(header_of(m.0))) as nat, false);
            lemma_chunks_extend(start, m.1);
            let inner = fold_context_chunks(start, m.1).0;
            assert(inner.take(st.0.len() as int) =~= inner.take(start.0.len() as int).take(st.0.len() as int));
            assert(start.0.take(st.0.len() as int) =~= st.0);
            assert(next.0 == inner + seq!['\n']);
            assert((inner + seq!['\n']).take(st.0.len() as int) =~= inner.take(st.0.len() as int));
        } else {
            assert(next.0 == st.0);
        }
        assert(next.0.take(st.0.len() as int) =~= st.0);
        lemma_context_extend(next, ms.drop_first());
        let f = fold_context(next, ms.drop_first()).0;
        assert(f.take(st.0.len() as int) =~= f.take(next.0.len() as int).take(st.0.len() as int));
    }
}

proof fn lemma_context_split(st: ContextState, ms: Seq<(Seq<char>, Seq<Seq<char>>)>, k: int)
    requires
        0 <= k <= ms.len(),
    ensures
        fold_context(st, ms) == fold_context(fold_context(st, ms.take(k)), ms.skip(k)),
    decreases k,
{
    if k == 0 {
        assert(ms.take(0) =~= Seq::<(Seq<char>, Seq<Seq<char>>)>::empty());
        assert(ms.skip(0) =~= ms);
    } else {
        let next = context_material_step(st, ms[0]);
        lemma_context_split(next, ms.drop_first(), k - 1);
        assert(ms.take(k).drop_first() =~= ms.drop_first().take(k - 1));
        assert(ms.take(k)[0] == ms[0]);
        assert(ms.drop_first().skip(k - 1) =~= ms.skip(k));
    }
}

/// Materials are not dropped while the budget lasts: when the first `k`
/// materials' headers, chunks and blank lines take fewer bytes than the
/// budget, the context starts with the `[参考资料]` line and exactly that text.
pub proof fn law_context_keeps_what_fits(ms: Seq<(Seq<char>, Seq<Seq<char>>)>, max: nat, k: int)
    requires
        0 < k <= ms.len(),
        utf8_len(material_blocks(ms.take(k))) < max,
    ensures
        crate::text::starts_with(context_of(ms, max), "[参考资料]\n"@ + material_blocks(ms.take(k))),
{
    let st0: ContextState = (Seq::empty(), max, false);
    lemma_fold_context_all(st0, ms.take(k));
    lemma_context_split(st0, ms, k);
    let mid = fold_context(st0, ms.take(k));
    lemma_context_extend(mid, ms.skip(k));
    let blocks = material_blocks(ms.take(k));
    assert(Seq::<char>::empty() + blocks =~= blocks);
    let body = fold_context(st0, ms).0;
    reveal_strlit("--- 素材: ");
    assert(blocks.len() > 0) by {
        assert(ms.take(k)[0] == ms[0]);
        assert(header_of(ms[0].0).len() > 0);
        assert(blocks.len() >= header_of(ms[0].0).len());
    }
    let h = "[参考资料]\n"@;
    assert(("[参考资料]\n"@ + body).take((h.len() + blocks.len()) as int) =~= h + blocks);
}

/// The chunk-level bound: before the budget runs out, text plus budget stay
/// within `m`; once a chunk is cut, the text is at most four bytes over `m`.
pub open spec fn chunk_bound(st: ContextState, m: nat) -> bool {
    if st.2 {
        st.1 == 0 && utf8_len(st.0) <= m + 4
    } else {
        utf8_len(st.0) + st.1 <= m
    }
}

proof fn lemma_chunk_step_bound(st: ContextState, c: Seq<char>, m: nat)
    requires
        chunk_bound(st, m),
    ensures
        chunk_bound(context_chunk_step(st, c), m),
{
    if !st.2 {
        if utf8_len(c) >= st.1 {
            let keep = if st.1 >= 3 { st.1 - 3 } else { 0 };
            lemma_fit_count(c, keep as int);
            let p = safe_prefix(c, keep as int);
            lemma_utf8_len_concat(st.0, p);
            lemma_utf8_len_concat(st.0 + p, seq!['.', '.', '.', '\n']);
            assert(utf8_len(seq!['.', '.', '.', '\n']) == 4) by {
                assert(utf8_len(Seq::<char>::empty()) == 0);
                assert(seq!['\n'].drop_first() =~= Seq::<char>::empty());
                assert(utf8_len(seq!['\n']) == 1);
                assert(seq!['.', '\n'].drop_first() =~= seq!['\n']);
                assert(utf8_len(seq!['.', '\n']) == 2);
                assert(seq!['.', '.', '\n'].drop_first() =~= seq!['.', '\n']);
                assert(utf8_len(seq!['.', '.', '\n']) == 3);
                assert(seq!['.', '.', '.', '\n'].drop_first() =~= seq!['.', '.', '\n']);
            }
        } else {
            lemma_utf8_len_concat(st.0, c);
            lemma_utf8_len_push(st.0 + c, '\n');
            assert(st.0 + c + seq!['\n'] =~= (st.0 + c).push('\n'));
        }
    }
}

proof fn lemma_fold_chunks_bound(st: ContextState, cs: Seq<Seq<char>>, m: nat)
    requires
        chunk_bound(st, m),
    ensures
        chunk_bound(fold_context_chunks(st, cs), m),
    decreases cs.len(),
{
    if cs.len() > 0 {
        lemma_chunk_step_bound(st, cs[0], m);
        lemma_fold_chunks_bound(context_chunk_step(st, cs[0]), cs.drop_first(), m);
    }
}

/// The material-level bound after `k` materials: at most `max + 4 + k`
/// bytes, and while budget is left, text plus budget within `max + k`.
pub open spec fn material_bound(st: ContextState, max: nat, k: nat) -> bool {
    &&& utf8_len(st.0) <= max + 4 + k
    &&& !st.2 ==> utf8_len(st.0) + st.1 <= max + 4 + k
    &&& (!st.2 && st.1 > 0) ==> utf8_len(st.0) + st.1 <= max + k
}

proof fn lemma_fold_context_bound(st: ContextState, ms: Seq<(Seq<char>, Seq<Seq<char>>)>, max: nat, k: nat)
    requires
        material_bound(st, max, k),
    ensures
        utf8_len(fold_context(st, ms).0) <= max + 4 + k + ms.len(),
    decreases ms.len(),
{
    if ms.len() > 0 {
        let m0 = ms[0];
        let h = header_of(m0.0);
        if st.2 || st.1 == 0 || utf8_len(h) >= st.1 {
            lemma_fold_context_bound((st.0, st.1, true), ms.drop_first(), max, k + 1);
        } else {
            let start = (st.0 + h, (st.1 - utf8_len(h)) as nat, false);
            lemma_utf8_len_concat(st.0, h);
            lemma_fold_chunks_bound(start, m0.1, max + k);
            let inner = fold_context_chunks(start, m0.1);
            lemma_utf8_len_push(inner.0, '\n');
            assert(inner.0 + seq!['\n'] =~= inner.0.push('\n'));
            let next = (inner.0 + seq!['\n'], inner.1, false);
            assert(material_bound(next, max, k + 1));
            lemma_fold_context_bound(next, ms.drop_first(), max, k + 1);
        }
    }
}

/// The reference context never exceeds its budget by more than its
/// `[参考资料]` line (15 bytes), the 4 bytes of a cut chunk's `...` and line
/// feed, and one line feed per material.
pub proof fn law_context_budget(ms: Seq<(Seq<char>, Seq<char>)>, max: nat)
    ensures
        utf8_len(context_of(chunked(ms), max)) <= max + 4 + ms.len() + 15,
{
    let cms = chunked(ms);
    assert(utf8_len(Seq::<char>::empty()) == 0);
    lemma_fold_context_bound((Seq::empty(), max, false), cms, max, 0);
    let body = fold_context((Seq::empty(), max, false), cms).0;
    if body.len() > 0 {
        reveal_strlit("[参考资料]\n");
        lemma_utf8_len_concat("[参考资料]\n"@, body);
        assert(utf8_len("[参考资料]\n"@) == 15) by {
            let t = "[参考资料]\n"@;
            assert(t =~= seq!['[', '参', '考', '资', '料', ']', '\n']);
            assert(utf8_len(Seq::<char>::empty()) == 0);
            assert(seq!['\n'].drop_first() =~= Seq::<char>::empty());
            assert(utf8_len(seq!['\n']) == 1);
            assert(seq![']', '\n'].drop_first() =~= seq!['\n']);
            assert(utf8_len(seq![']', '\n']) == 2);
            assert(seq!['料', ']', '\n'].drop_first() =~= seq![']', '\n']);
            assert(utf8_len(seq!['料', ']', '\n']) == 5);
            assert(seq!['资', '料', ']', '\n'].drop_first() =~= seq!['料', ']', '\n']);
            assert(utf8_len(seq!['资', '料', ']', '\n']) == 8);
            assert(seq!['考', '资', '料', ']', '\n'].drop_first() =~= seq!['资', '料', ']', '\n']);
            assert(utf8_len(seq!['考', '资', '料', ']', '\n']) == 11);
            assert(seq!['参', '考', '资', '料', ']', '\n'].drop_first() =~= seq!['考', '资', '料', ']', '\n']);
            assert(utf8_len(seq!['参', '考', '资', '料', ']', '\n']) == 14);
            assert(seq!['[', '参', '考', '资', '料', ']', '\n'].drop_first() =~= seq!['参', '考', '资', '料', ']', '\n']);
        }
    }
}

pub proof fn lemma_fold_context_stopped(st: ContextState, ms: Seq<(Seq<char>, Seq<Seq<char>>)>)
    requires
        st.2,
    ensures
        fold_context(st, ms) == st,
    decreases ms.len(),
{
    if ms.len() > 0 {
        lemma_fold_context_stopped(st, ms.drop_first());
    }
}

pub proof fn lemma_fold_context_chunks_done(st: ContextState, cs: Seq<Seq<char>>)
    requires
        st.2,
    ensures
        fold_context_chunks(st, cs) == st,
    decreases cs.len(),
{
    if cs.len() > 0 {
        lemma_fold_context_chunks_done(st, cs.drop_first());
    }
}


// ---------------------------------------------------------------------------
// Text of a Word document
// ---------------------------------------------------------------------------

/// `<w:t`, the start of a text-run tag.
pub open spec fn run_open() -> Seq<char> {
    seq!['<', 'w', ':', 't']
}

/// `</w:t>`, the end of a text run.
pub open spec fn run_close() -> Seq<char> {
    seq!['<', '/', 'w', ':', 't', '>']
}

/// `</w:p>`, the end of a paragraph.
pub open spec fn para_close() -> Seq<char> {
    seq!['<', '/', 'w', ':', 'p', '>']
}

/// The texts of the runs of a paragraph's XML from `pos` on: each tag that
/// starts with `<w:t` and is not self-closing opens a text that ends at the
/// next `</w:t>`; scanning stops at the first incomplete tag or run.
pub open spec fn runs_from(p: Seq<char>, pos: int) -> Seq<Seq<char>>
    decreases p.len() - pos,
{
    if pos < 0 || pos > p.len() {
        Seq::empty()
    } else {
        match find_from(p, run_open(), pos) {
            None => Seq::empty(),
            Some(start) => if !(pos <= start <= p.len()) {
                Seq::empty()
            } else {
                match find_from(p, seq!['>'], start) {
                    None => Seq::empty(),
                    Some(te) => if !(start <= te < p.len()) {
                        Seq::empty()
                    } else if ends_with(p.subrange(start, te), seq!['/']) {
                        runs_from(p, te + 1)
                    } else {
                        match find_from(p, run_close(), te + 1) {
                            None => Seq::empty(),
                            Some(c) => if !(te + 1 <= c && c + 6 <= p.len()) {
                                Seq::empty()
                            } else {
                                seq![p.subrange(te + 1, c)] + runs_from(p, c + 6)
                            },
                        }
                    },
                }
            },
        }
    }
}

/// A complete text run `<w:t>t</w:t>`.
pub open spec fn text_run(t: Seq<char>) -> Seq<char> {
    run_open() + seq!['>'] + t + run_close()
}

/// Scanning the runs of `a + q` from inside `q` finds the runs of `q`.
proof fn lemma_runs_shift(a: Seq<char>, q: Seq<char>, i: int)
    requires
        0 <= i,
    ensures
        runs_from(a + q, a.len() + i) == runs_from(q, i),
    decreases q.len() - i,
{
    let s = a + q;
    let al = a.len() as int;
    if i <= q.len() {
        lemma_find_from_shift(a, q, run_open(), i);
        match find_from(q, run_open(), i) {
            None => {},
            Some(start) => {
                crate::text::lemma_find_from(q, run_open(), i);
                lemma_find_from_shift(a, q, seq!['>'], start);
                match find_from(q, seq!['>'], start) {
                    None => {},
                    Some(te) => {
                        crate::text::lemma_find_from(q, seq!['>'], start);
                        assert(s.subrange(al + start, al + te) =~= q.subrange(start, te));
                        if !ends_with(q.subrange(start, te), seq!['/']) {
                            lemma_find_from_shift(a, q, run_close(), te + 1);
                            assert(al + te + 1 == al + (te + 1));
                            match find_from(q, run_close(), te + 1) {
                                None => {},
                                Some(c) => {
                                    crate::text::lemma_find_from(q, run_close(), te + 1);
                                    assert(s.subrange(al + te + 1, al + c) =~= q.subrange(te + 1, c));
                                    lemma_runs_shift(a, q, c + 6);
                                    assert(al + c + 6 == al + (c + 6));
                                },
                            }
                        } else {
                            lemma_runs_shift(a, q, te + 1);
                            assert(al + te + 1 == al + (te + 1));
                        }
                    },
                }
            },
        }
    }
}

/// Every complete run of a paragraph counts: a paragraph that starts with
/// the run `<w:t>t</w:t>` (its text free of `<`) has `t` as its first run
/// text, followed by the run texts of the rest of the paragraph.
pub proof fn law_leading_run_then_rest(t: Seq<char>, q: Seq<char>)
    requires
        forall|k: int| 0 <= k < t.len() ==> t[k] != '<',
    ensures
        runs_from(text_run(t) + q, 0) == seq![t] + runs_from(q, 0),
{
    let r = text_run(t);
    let s = r + q;
    let tl = t.len() as int;
    assert(s.subrange(0, 4) =~= run_open());
    lemma_find_from_exact(s, run_open(), 0, 0);
    assert(s.subrange(4, 5) =~= seq!['>']);
    assert forall|j: int| 0 <= j < 4 implies !occurs_at(s, seq!['>'], j) by {
        assert(s.subrange(j, j + 1)[0] == s[j]);
    }
    lemma_find_from_exact(s, seq!['>'], 0, 4);
    assert(s.subrange(0, 4).skip(3) =~= seq!['t']);
    assert(seq!['t'][0] != seq!['/'][0]);
    assert(!ends_with(s.subrange(0, 4), seq!['/']));
    let c = 5 + tl;
    assert(s.subrange(c, c + 6) =~= run_close());
    assert forall|j: int| 5 <= j < c implies !occurs_at(s, run_close(), j) by {
        if occurs_at(s, run_close(), j) {
            assert(s.subrange(j, j + 6)[0] == s[j]);
            assert(s[j] == t[j - 5]);
        }
    }
    lemma_find_from_exact(s, run_close(), 5, c);
    assert(s.subrange(5, c) =~= t);
    lemma_runs_shift(r, q, 0);
    assert(r.len() == c + 6);
}

/// Markup before a run does not hide it: when `z` holds no `<w:t`, the run
/// texts of `z + <w:t>t</w:t> + q` are `t` followed by those of `q`.
#[verifier::spinoff_prover]
#[verifier::rlimit(40)]
pub proof fn law_run_after_markup(z: Seq<char>, t: Seq<char>, q: Seq<char>)
    requires
        !crate::text::contains(z, run_open()),
        forall|k: int| 0 <= k < t.len() ==> t[k] != '<',
    ensures
        runs_from(z + text_run(t) + q, 0) == seq![t] + runs_from(q, 0),
{
    let r = text_run(t);
    let s = z + (r + q);
    assert(z + r + q =~= s);
    let zl = z.len() as int;
    let o = run_open();
    assert(s.subrange(zl, zl + 4) =~= o);
    assert forall|j: int| 0 <= j < zl implies !occurs_at(s, o, j) by {
        if occurs_at(s, o, j) {
            if j + 4 <= zl {
                assert(s.subrange(j, j + 4) =~= z.subrange(j, j + 4));
                assert(occurs_at(z, o, j));
            } else {
                let m = zl - j;
                assert(s.subrange(j, j + 4)[m] == s[zl]);
                assert(s[zl] == '<');
                assert(o[m] == '<');
            }
        }
    }
    lemma_find_from_exact(s, o, 0, zl);
    lemma_find_from_exact(s, o, zl, zl);
    assert(runs_from(s, 0) == runs_from(s, zl));
    lemma_runs_shift(z, r + q, 0);
    law_leading_run_then_rest(t, q);
}

/// A paragraph of two complete runs reads as their texts joined by a space.
pub proof fn law_two_runs_paragraph(t1: Seq<char>, t2: Seq<char>)
    requires
        t1.len() > 0,
        forall|k: int| 0 <= k < t1.len() ==> t1[k] != '<',
        forall|k: int| 0 <= k < t2.len() ==> t2[k] != '<',
    ensures
        join_runs(Seq::empty(), runs_from(text_run(t1) + text_run(t2), 0)) == t1 + seq![' '] + t2,
{
    law_leading_run_then_rest(t1, text_run(t2));
    law_leading_run_then_rest(t2, Seq::<char>::empty());
    assert(text_run(t2) + Seq::<char>::empty() =~= text_run(t2));
    assert(runs_from(Seq::<char>::empty(), 0) == Seq::<Seq<char>>::empty());
    let ts = seq![t1] + (seq![t2] + Seq::<Seq<char>>::empty());
    assert(ts =~= seq![t1, t2]);
    assert(seq![t1, t2].drop_first() =~= seq![t2]);
    assert(seq![t2].drop_first() =~= Seq::<Seq<char>>::empty());
    assert(Seq::<char>::empty() + t1 =~= t1);
    assert(join_runs(t1 + seq![' '] + t2, Seq::<Seq<char>>::empty()) == t1 + seq![' '] + t2);
    assert(join_runs(t1, seq![t2]) == join_runs(t1 + seq![' '] + t2, seq![t2].drop_first()));
    assert(join_runs(Seq::empty(), seq![t1, t2]) == join_runs(Seq::empty() + t1, seq![t1, t2].drop_first()));
}

/// Joins run texts: a space goes before each text once something has been
/// collected.
pub open spec fn join_runs(acc: Seq<char>, ts: Seq<Seq<char>>) -> Seq<char>
    decreases ts.len(),
{
    if ts.len() == 0 {
        acc
    } else {
        let next = if acc.len() > 0 { acc + seq![' '] + ts[0] } else { acc + ts[0] };
        join_runs(next, ts.drop_first())
    }
}

/// The five predefined XML entities decoded, one kind after the other.
pub open spec fn decode_entities(s: Seq<char>) -> Seq<char> {
    replace(
        replace(
            replace(
                replace(
                    replace(s, seq!['&', 'a', 'm', 'p', ';'], seq!['&']),
                    seq!['&', 'l', 't', ';'],
                    seq!['<'],
                ),
                seq!['&', 'g', 't', ';'],
                seq!['>'],
            ),
            seq!['&', 'q', 'u', 'o', 't', ';'],
            seq!['"'],
        ),
        seq!['&', 'a', 'p', 'o', 's', ';'],
        seq!['\''],
    )
}

/// The non-empty paragraph texts (decoded) of the pieces of a document,
/// from the left.
pub open spec fn doc_paragraphs(pieces: Seq<Seq<char>>) -> Seq<Seq<char>>
    decreases pieces.len(),
{
    if pieces.len() == 0 {
        Seq::empty()
    } else {
        let t = join_runs(Seq::empty(), runs_from(pieces.last(), 0));
        let before = doc_paragraphs(pieces.drop_last());
        if t.len() > 0 {
            before.push(decode_entities(t))
        } else {
            before
        }
    }
}

/// `ps` joined with `sep` between consecutive items.
pub open spec fn join(ps: Seq<Seq<char>>, sep: Seq<char>) -> Seq<char>
    decreases ps.len(),
{
    if ps.len() == 0 {
        Seq::empty()
    } else if ps.len() == 1 {
        ps[0]
    } else {
        join(ps.drop_last(), sep) + sep + ps.last()
    }
}

/// The text of a Word document body (`word/document.xml`): its non-empty
/// paragraphs, separated by blank lines.
pub open spec fn docx_text(xml: Seq<char>) -> Seq<char> {
    join(doc_paragraphs(split(xml, para_close())), seq!['\n', '\n'])
}

/// Decodes `&amp;`, `&lt;`, `&gt;`, `&quot;` and `&apos;`, in that order.
pub fn decode_xml_entities(s: &str) -> (r: String)
    ensures
        r@ == decode_entities(s@),
{
    let v = chars_of(s);
    let r = decode_entities_chars(&v);
    string_of(&r)
}

/// `decode_entities` on a character vector.
pub fn decode_entities_chars(v: &Vec<char>) -> (r: Vec<char>)
    ensures
        r@ == decode_entities(v@),
{
    let amp = vec!['&', 'a', 'm', 'p', ';'];
    let lt = vec!['&', 'l', 't', ';'];
    let gt = vec!['&', 'g', 't', ';'];
    let quot = vec!['&', 'q', 'u', 'o', 't', ';'];
    let apos = vec!['&', 'a', 'p', 'o', 's', ';'];
    let c_amp = vec!['&'];
    let c_lt = vec!['<'];
    let c_gt = vec!['>'];
    let c_quot = vec!['"'];
    let c_apos = vec!['\''];
    let r1 = replace_exec(v, &amp, &c_amp);
    let r2 = replace_exec(&r1, &lt, &c_lt);
    let r3 = replace_exec(&r2, &gt, &c_gt);
    let r4 = replace_exec(&r3, &quot, &c_quot);
    let r5 = replace_exec(&r4, &apos, &c_apos);
    assert(amp@ =~= seq!['&', 'a', 'm', 'p', ';']);
    assert(lt@ =~= seq!['&', 'l', 't', ';']);
    assert(gt@ =~= seq!['&', 'g', 't', ';']);
    assert(quot@ =~= seq!['&', 'q', 'u', 'o', 't', ';']);
    assert(apos@ =~= seq!['&', 'a', 'p', 'o', 's', ';']);
    assert(c_amp@ =~= seq!['&']);
    assert(c_lt@ =~= seq!['<']);
    assert(c_gt@ =~= seq!['>']);
    assert(c_quot@ =~= seq!['"']);
    assert(c_apos@ =~= seq!['\'']);
    r5
}

/// Collects the run texts of one paragraph's XML, joined as `join_runs` does.
fn paragraph_text(p: &Vec<char>) -> (r: Vec<char>)
    ensures
        r@ == join_runs(Seq::empty(), runs_from(p@, 0)),
{
    let open = vec!['<', 'w', ':', 't'];
    let gt = vec!['>'];
    let close = vec!['<', '/', 'w', ':', 't', '>'];
    let slash = vec!['/'];
    assert(open@ =~= run_open());
    assert(gt@ =~= seq!['>']);
    assert(close@ =~= run_close());
    assert(slash@ =~= seq!['/']);
    let mut acc: Vec<char> = Vec::new();
    let mut pos: usize = 0;
    loop
        invariant
            pos <= p.len(),
            open@ == run_open(),
            gt@ == seq!['>'],
            close@ == run_close(),
            slash@ == seq!['/'],
            join_runs(acc@, runs_from(p@, pos as int)) == join_runs(Seq::empty(), runs_from(p@, 0)),
        decreases p.len() - pos,
    {
        let start = match find_from_exec(p, &open, pos) {
            Some(k) => k,
            None => {
                return acc;
            },
        };
        let te = match find_from_exec(p, &gt, start) {
            Some(k) => k,
            None => {
                return acc;
            },
        };
        let mut tag: Vec<char> = Vec::new();
        extend_range(&mut tag, p, start, te);
        if ends_with_exec(&tag, &slash) {
            pos = te + 1;
            continue;
        }
        let c = match find_from_exec(p, &close, te + 1) {
            Some(k) => k,
            None => {
                return acc;
            },
        };
        let ghost before = acc@;
        let ghost t = p@.subrange(te + 1, c as int);
        if acc.len() > 0 {
            acc.push(' ');
        }
        extend_range(&mut acc, p, te + 1, c);
        proof {
            assert(runs_from(p@, pos as int) == seq![t] + runs_from(p@, c + 6));
            assert((seq![t] + runs_from(p@, c + 6))[0] == t);
            assert((seq![t] + runs_from(p@, c + 6)).drop_first() =~= runs_from(p@, c + 6));
            if before.len() > 0 {
                assert(acc@ =~= before + seq![' '] + t);
            } else {
                assert(acc@ =~= before + t);
            }
        }
        pos = c + 6;
    }
}

/// The text of a Word document body (see `docx_text`).
#[verifier::rlimit(40)]
pub fn extract_text_from_docx_xml(xml: &str) -> (r: String)
    ensures
        r@ == docx_text(xml@),
{
    let v = chars_of(xml);
    let close = vec!['<', '/', 'w', ':', 'p', '>'];
    assert(close@ =~= para_close());
    let pieces = split_bounds(&v, &close);
    let ghost ps = split(v@, para_close());
    let mut out: Vec<char> = Vec::new();
    let mut n: usize = 0;
    let sep = vec!['\n', '\n'];
    assert(sep@ =~= seq!['\n', '\n']);
    let mut i: usize = 0;
    while i < pieces.len()
        invariant
            i <= pieces.len(),
            ps == split(v@, para_close()),
            delimits(pieces@, v@, ps),
            sep@ == seq!['\n', '\n'],
            n <= i,
            n == doc_paragraphs(ps.take(i as int)).len(),
            out@ == join(doc_paragraphs(ps.take(i as int)), seq!['\n', '\n']),
        decreases pieces.len() - i,
    {
        let (a, b) = pieces[i];
        let mut piece: Vec<char> = Vec::new();
        extend_range(&mut piece, &v, a, b);
        assert(piece@ == ps[i as int]);
        let t = paragraph_text(&piece);
        let ghost prev = doc_paragraphs(ps.take(i as int));
        proof {
            assert(ps.take(i + 1).drop_last() =~= ps.take(i as int));
            assert(ps.take(i + 1).last() == ps[i as int]);
        }
        if t.len() > 0 {
            let d = decode_entities_chars(&t);
            if n > 0 {
                extend_all(&mut out, &sep);
            }
            extend_all(&mut out, &d);
            proof {
                let now = doc_paragraphs(ps.take(i + 1));
                assert(now == prev.push(d@));
                assert(now.drop_last() =~= prev);
                if n > 0 {
                    assert(out@ =~= join(prev, seq!['\n', '\n']) + seq!['\n', '\n'] + d@);
                } else {
                    assert(prev.len() == 0);
                    assert(out@ =~= d@);
                }
            }
            n = n + 1;
        }
        i = i + 1;
    }
    assert(ps.take(pieces.len() as int) =~= ps);
    string_of(&out)
}


// ---------------------------------------------------------------------------
// Text of an uploaded file
// ---------------------------------------------------------------------------

/// Which step of extracting a file's text failed.
#[derive(Clone, Copy, PartialEq, Eq, Debug)]
pub enum ExtractStage {
    /// A `.docx` file is not a readable zip archive.
    DocxArchive,
    /// A `.docx` archive has no `word/document.xml`.
    DocxEntry,
    /// `word/document.xml` could not be read as text.
    DocxRead,
    /// The PDF text extraction failed.
    Pdf,
    /// The PDF is larger than `MAX_PDF_BYTES`.
    PdfTooLarge,
}

/// A failed extraction: the step that failed and the underlying message.
#[derive(Debug)]
pub struct ExtractError {
    pub stage: ExtractStage,
    pub detail: String,
}

/// The user-facing message of an extraction failure.
pub open spec fn extract_message(stage: ExtractStage, detail: Seq<char>) -> Seq<char> {
    match stage {
        ExtractStage::DocxArchive => "无法打开 docx: "@ + detail,
        ExtractStage::DocxEntry => "docx 中找不到 word/document.xml: "@ + detail,
        ExtractStage::DocxRead => detail,
        ExtractStage::Pdf => "PDF 文本提取失败: "@ + detail,
        ExtractStage::PdfTooLarge => "PDF 文件超过 10MB，请压缩或拆分后再上传"@,
    }
}

impl ExtractError {
    /// The user-facing message.
    pub fn message(&self) -> (m: String)
        ensures
            m@ == extract_message(self.stage, self.detail@),
    {
        let mut m = String::new();
        match self.stage {
            ExtractStage::DocxArchive => push_str(&mut m, "无法打开 docx: "),
            ExtractStage::DocxEntry => push_str(&mut m, "docx 中找不到 word/document.xml: "),
            ExtractStage::DocxRead => {},
            ExtractStage::Pdf => push_str(&mut m, "PDF 文本提取失败: "),
            ExtractStage::PdfTooLarge => {
                push_str(&mut m, "PDF 文件超过 10MB，请压缩或拆分后再上传");
                return m;
            },
        }
        push_str(&mut m, self.detail.as_str());
        assert(m@ =~= extract_message(self.stage, self.detail@));
        m
    }
}

/// The extraction stage of a zip failure.
pub open spec fn docx_stage(z: ZipStage) -> ExtractStage {
    match z {
        ZipStage::Entry => ExtractStage::DocxEntry,
        ZipStage::Read => ExtractStage::DocxRead,
    }
}

/// The lowercase extension of `filename` (empty when it has none).
pub open spec fn lower_extension(filename: Seq<char>) -> Seq<char> {
    match extension(filename) {
        Some(e) => lowercase(e),
        None => lowercase(Seq::empty()),
    }
}

/// The largest PDF accepted, in bytes (10 MB); a larger one is refused
/// without being read.
pub const MAX_PDF_BYTES: usize = 10 * 1024 * 1024;

/// Whether a file of that name and size is a PDF whose text is to be read
/// (lowercase extension `pdf`, at most `MAX_PDF_BYTES`): the caller reads it
/// with the PDF reader and hands the outcome to `extract_text`.
pub fn pdf_to_read(filename: &str, len: usize) -> (b: bool)
    ensures
        b == (lower_extension(filename@) == seq!['p', 'd', 'f'] && len <= MAX_PDF_BYTES),
{
    let ext = lower_extension_exec(filename);
    let pdf = vec!['p', 'd', 'f'];
    assert(pdf@ =~= seq!['p', 'd', 'f']);
    same_chars(&ext, &pdf) && len <= MAX_PDF_BYTES
}

/// The lowercase extension of `filename` (see `lower_extension`).
fn lower_extension_exec(filename: &str) -> (r: Vec<char>)
    ensures
        r@ == lower_extension(filename@),
{
    let ext_chars: Vec<char> = match file_extension(filename) {
        Some(e) => e,
        None => Vec::new(),
    };
    let ext_str = string_of(&ext_chars);
    let lower = to_lowercase(ext_str.as_str());
    proof {
        if extension(filename@) is None {
            assert(ext_chars@ =~= Seq::<char>::empty());
        }
    }
    chars_of(lower.as_str())
}

/// The text of an uploaded file, chosen by the lowercase extension of its
/// name: `docx` reads the Word document body, `pdf` takes the text that the
/// PDF reader gave (`pdf`, the text or the reader's message; a PDF over
/// `MAX_PDF_BYTES` is refused unread, and one whose outcome is not handed in
/// fails with an empty message), and anything else (`txt`, `md`, ...) is
/// decoded as UTF-8, invalid sequences replaced.
pub fn extract_text(filename: &str, data: &[u8], pdf: Option<Result<String, String>>) -> (r: Result<String, ExtractError>)
    ensures
        lower_extension(filename@) == seq!['d', 'o', 'c', 'x'] ==> match zip_open_error(data@) {
            Some(m) => r matches Err(e) && e.stage == ExtractStage::DocxArchive && e.detail@ == m,
            None => match zip_entry_text(data@, "word/document.xml"@) {
                Ok(xml) => r matches Ok(t) && t@ == docx_text(xml),
                Err(f) => r matches Err(e) && e.stage == docx_stage(f.0) && e.detail@ == f.1,
            },
        },
        lower_extension(filename@) == seq!['p', 'd', 'f'] && data@.len() > MAX_PDF_BYTES ==> (r matches Err(e)
            && e.stage == ExtractStage::PdfTooLarge),
        lower_extension(filename@) == seq!['p', 'd', 'f'] && data@.len() <= MAX_PDF_BYTES ==> match pdf {
            Some(Ok(t)) => r matches Ok(x) && x@ == t@,
            Some(Err(m)) => r matches Err(e) && e.stage == ExtractStage::Pdf && e.detail@ == m@,
            None => r matches Err(e) && e.stage == ExtractStage::Pdf && e.detail@ == Seq::<char>::empty(),
        },
        lower_extension(filename@) != seq!['d', 'o', 'c', 'x'] && lower_extension(filename@) != seq![
            'p',
            'd',
            'f',
        ] ==> (r matches Ok(t) && t@ == utf8_lossy(data@)),
{
    let ext = lower_extension_exec(filename);
    let docx = vec!['d', 'o', 'c', 'x'];
    let pdf_ext = vec!['p', 'd', 'f'];
    assert(docx@ =~= seq!['d', 'o', 'c', 'x']);
    assert(pdf_ext@ =~= seq!['p', 'd', 'f']);
    if same_chars(&ext, &docx) {
        let mut archive = match open_zip(data) {
            Ok(a) => a,
            Err(detail) => {
                return Err(ExtractError { stage: ExtractStage::DocxArchive, detail });
            },
        };
        match read_zip_text(&mut archive, "word/document.xml") {
            Ok(xml) => Ok(extract_text_from_docx_xml(xml.as_str())),
            Err((stage, detail)) => {
                let st = match stage {
                    ZipStage::Entry => ExtractStage::DocxEntry,
                    ZipStage::Read => ExtractStage::DocxRead,
                };
                Err(ExtractError { stage: st, detail })
            },
        }
    } else if same_chars(&ext, &pdf_ext) {
        if data.len() > MAX_PDF_BYTES {
            return Err(ExtractError { stage: ExtractStage::PdfTooLarge, detail: String::new() });
        }
        match pdf {
            Some(Ok(t)) => Ok(t),
            Some(Err(m)) => Err(ExtractError { stage: ExtractStage::Pdf, detail: m }),
            None => Err(ExtractError { stage: ExtractStage::Pdf, detail: String::new() }),
        }
    } else {
        Ok(decode_utf8_lossy(data))
    }
}

} // verus!
