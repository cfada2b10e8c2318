//! Photos are kept as `data:` URLs: a content type and the base64 text of the
//! image bytes.

use vstd::prelude::*;
use crate::codec::{base64_bytes, base64_decode, base64_encode, base64_text};
use crate::templates::{after_first, before_first, split_first};
use crate::text::{
    chars_of, contains, extend_range, find, find_from_exec, lemma_find_exact, occurs_at, push_str,
    starts_with, starts_with_exec, string_of,
};

verus! {

/// `data:`, the scheme of a data URL.
pub open spec fn data_scheme() -> Seq<char> {
    seq!['d', 'a', 't', 'a', ':']
}

/// `;base64`, the marker of a base64 payload.
pub open spec fn base64_marker() -> Seq<char> {
    seq![';', 'b', 'a', 's', 'e', '6', '4']
}

/// The data URL of bytes of a content type.
pub open spec fn data_url_of(content_type: Seq<char>, bytes: Seq<u8>) -> Seq<char> {
    data_scheme() + content_type + base64_marker() + seq![','] + base64_text(bytes)
}

/// The header and the payload of a data URL: what comes before and after
/// its first comma.
pub open spec fn data_url_parts(u: Seq<char>) -> Option<(Seq<char>, Seq<char>)> {
    match find(u, seq![',']) {
        Some(k) => Some((u.take(k), u.skip(k + 1))),
        None => None,
    }
}

/// The content type a header names: what follows `data:` up to the first
/// `;`; `image/jpeg` for a header that does not start with `data:`.
pub open spec fn header_type(h: Seq<char>) -> Seq<char> {
    if starts_with(h, data_scheme()) {
        before_first(h.skip(5), ';')
    } else {
        "image/jpeg"@
    }
}

/// The content type and bytes a data URL holds, when it has a comma and its
/// payload decodes.
pub open spec fn data_url_content(u: Seq<char>) -> Option<(Seq<char>, Seq<u8>)> {
    match data_url_parts(u) {
        Some(parts) => match base64_bytes(parts.1) {
            Some(b) => Some((header_type(parts.0), b)),
            None => None,
        },
        None => None,
    }
}

/// Why a data URL could not be read.
#[derive(Debug)]
pub enum DataUrlError {
    /// It has no comma between header and payload.
    Malformed,
    /// The payload is not base64; the decoder's message.
    Undecodable(String),
}

impl DataUrlError {
    /// The message shown for the error.
    pub fn message(&self) -> (m: String)
        ensures
            self is Malformed ==> m@ == "图片数据格式错误"@,
            self matches DataUrlError::Undecodable(e) ==> m@ == "解码失败: "@ + e@,
    {
        match self {
            DataUrlError::Malformed => "图片数据格式错误".to_owned(),
            DataUrlError::Undecodable(e) => {
                let mut m = String::new();
                push_str(&mut m, "解码失败: ");
                push_str(&mut m, e.as_str());
                m
            },
        }
    }
}

/// A one-character pattern occurs exactly where that character stands.
pub proof fn lemma_occurs_char(s: Seq<char>, c: char, i: int)
    ensures
        occurs_at(s, seq![c], i) <==> (0 <= i < s.len() && s[i] == c),
{
    if 0 <= i < s.len() {
        assert(s.subrange(i, i + 1) =~= seq![s[i]]);
        if s.subrange(i, i + 1) == seq![c] {
            assert(s.subrange(i, i + 1)[0] == c);
        }
    }
}

/// The data URL of `bytes` of type `content_type`. When the type has no comma
/// and no semicolon, reading the URL back gives the type and the bytes.
pub fn make_data_url(content_type: &str, bytes: &[u8]) -> (r: String)
    requires
        bytes@.len() / 3 * 4 + 4 <= usize::MAX,
    ensures
        r@ == data_url_of(content_type@, bytes@),
        !contains(content_type@, seq![',']) && !contains(content_type@, seq![';']) ==> data_url_content(r@)
            == Some((content_type@, bytes@)),
{
    let enc = base64_encode(bytes);
    let mut r = String::new();
    push_str(&mut r, "data:");
    push_str(&mut r, content_type);
    push_str(&mut r, ";base64,");
    push_str(&mut r, enc.as_str());
    proof {
        reveal_strlit("data:");
        reveal_strlit(";base64,");
        let ct = content_type@;
        assert(r@ =~= data_url_of(ct, bytes@));
        if !contains(ct, seq![',']) && !contains(ct, seq![';']) {
            let u = r@;
            let k: int = ct.len() as int + 12;
            let h = data_scheme() + ct + base64_marker();
            assert(u =~= h + seq![','] + enc@);
            assert(u[k] == ',');
            lemma_occurs_char(u, ',', k);
            assert forall|j: int| 0 <= j < k implies !occurs_at(u, seq![','], j) by {
                lemma_occurs_char(u, ',', j);
                if 5 <= j < 5 + ct.len() {
                    assert(u[j] == ct[j - 5]);
                    lemma_occurs_char(ct, ',', j - 5);
                }
            }
            lemma_find_exact(u, seq![','], k);
            assert(u.take(k) =~= h);
            assert(u.skip(k + 1) =~= enc@);
            assert(h.take(5) =~= data_scheme());
            let t = h.skip(5);
            assert(t =~= ct + base64_marker());
            lemma_occurs_char(t, ';', ct.len() as int);
            assert forall|j: int| 0 <= j < ct.len() implies !occurs_at(t, seq![';'], j) by {
                lemma_occurs_char(t, ';', j);
                lemma_occurs_char(ct, ';', j);
            }
            lemma_find_exact(t, seq![';'], ct.len() as int);
            assert(t.take(ct.len() as int) =~= ct);
        }
    }
    r
}

/// The content type and bytes of a data URL (see `data_url_content`); an
/// error when it has no comma or its payload does not decode.
pub fn parse_data_url(data_url: &str) -> (r: Result<(String, Vec<u8>), DataUrlError>)
    ensures
        match data_url_parts(data_url@) {
            None => r matches Err(DataUrlError::Malformed),
            Some(parts) => match base64_bytes(parts.1) {
                Some(b) => r matches Ok(x) && x.0@ == header_type(parts.0) && x.1@ == b,
                None => r matches Err(DataUrlError::Undecodable(_)),
            },
        },
{
    let v = chars_of(data_url);
    let comma = vec![','];
    assert(comma@ =~= seq![',']);
    let k = match find_from_exec(&v, &comma, 0) {
        Some(k) => k,
        None => {
            return Err(DataUrlError::Malformed);
        },
    };
    let mut header: Vec<char> = Vec::new();
    extend_range(&mut header, &v, 0, k);
    let mut payload: Vec<char> = Vec::new();
    extend_range(&mut payload, &v, k + 1, v.len());
    assert(header@ =~= v@.take(k as int));
    assert(payload@ =~= v@.skip(k + 1));
    let scheme = vec!['d', 'a', 't', 'a', ':'];
    assert(scheme@ =~= data_scheme());
    let ct = if starts_with_exec(&header, &scheme) {
        let mut after: Vec<char> = Vec::new();
        extend_range(&mut after, &header, 5, header.len());
        assert(after@ =~= header@.skip(5));
        let (before, _) = split_first(&after, ';');
        string_of(&before)
    } else {
        "image/jpeg".to_owned()
    };
    let text = string_of(&payload);
    match base64_decode(text.as_str()) {
        Ok(bytes) => Ok((ct, bytes)),
        Err(e) => Err(DataUrlError::Undecodable(e)),
    }
}

/// The extension a photo gets in an exported archive: what follows the `/`
/// of the media type (before the first `;`), up to a further `/`; `jpeg`
/// when there is no `/`.
pub open spec fn export_ext(u: Seq<char>) -> Seq<char> {
    match after_first(before_first(u, ';'), '/') {
        Some(rest) => before_first(rest, '/'),
        None => "jpeg"@,
    }
}

/// The extension a photo gets in an exported archive (see `export_ext`).
pub fn photo_export_ext(data_url: &str) -> (r: String)
    ensures
        r@ == export_ext(data_url@),
{
    let v = chars_of(data_url);
    let (media, _) = split_first(&v, ';');
    let (_, sub) = split_first(&media, '/');
    match sub {
        Some(rest) => {
            let (ext, _) = split_first(&rest, '/');
            string_of(&ext)
        },
        None => "jpeg".to_owned(),
    }
}

} // verus!
