//! Calls into std and outside crates that decode bytes into text (UTF-8,
//! zip, base64, PDF), and the file-name rules used to pick a decoder. The
//! functions that make those calls are taken on trust; each says what it
//! claims of the code it calls.

use vstd::prelude::*;
use std::io::{Cursor, Read};
use vstd::utf8::{decode_utf8, is_ascii_chars, valid_utf8};
use zip::ZipArchive;
use crate::text::{delimits, extend_range, rfind, rfind_exec, split, split_bounds};

verus! {

/// What std's `String::from_utf8_lossy` makes of a byte sequence.
pub uninterp spec fn utf8_lossy(bytes: Seq<u8>) -> Seq<char>;

/// Calls std's `String::from_utf8_lossy`. Claimed: the result is a function of
/// the bytes alone, and on valid UTF-8 it is exactly the decoded text (std
/// replaces only invalid sequences, by U+FFFD).
#[verifier::external_body]
pub(crate) fn decode_utf8_lossy(bytes: &[u8]) -> (r: String)
    ensures
        r@ == utf8_lossy(bytes@),
        valid_utf8(bytes@) ==> r@ == decode_utf8(bytes@),
{
    String::from_utf8_lossy(bytes).into_owned()
}

/// `s` with ASCII capital letters made small and every other character kept.
pub open spec fn ascii_lower(s: Seq<char>) -> Seq<char> {
    s.map_values(|c: char| if 'A' <= c && c <= 'Z' { ((c as u32) + 32) as char } else { c })
}

/// What std's `str::to_lowercase` makes of a text.
pub uninterp spec fn lowercase(s: Seq<char>) -> Seq<char>;

/// Calls std's `str::to_lowercase`. Claimed: the result is a function of the
/// text alone (Unicode's lowercase mapping), and on ASCII text it lowers the
/// capital letters and keeps every other character.
#[verifier::external_body]
pub(crate) fn to_lowercase(s: &str) -> (r: String)
    ensures
        r@ == lowercase(s@),
        is_ascii_chars(s@) ==> r@ == ascii_lower(s@),
{
    s.to_lowercase()
}

#[verifier::external_type_specification]
#[verifier::external_body]
#[verifier::reject_recursive_types(T)]
pub struct ExCursor<T>(Cursor<T>);

#[verifier::external_type_specification]
#[verifier::external_body]
#[verifier::reject_recursive_types(R)]
pub struct ExZipArchive<R>(ZipArchive<R>);

/// Where reading an entry of an opened zip archive failed.
#[derive(Clone, Copy, PartialEq, Eq, Debug)]
pub enum ZipStage {
    /// The archive holds no entry of that name.
    Entry,
    /// The entry could not be read as UTF-8 text.
    Read,
}

/// The bytes an opened zip archive was read from.
pub uninterp spec fn zip_source(a: ZipArchive<Cursor<Vec<u8>>>) -> Seq<u8>;

/// Why the `zip` crate refuses to open `data` as an archive (the error's
/// message), or `None` when it opens it.
pub uninterp spec fn zip_open_error(data: Seq<u8>) -> Option<Seq<char>>;

/// What the `zip` crate reads as the text of entry `entry` of the archive
/// `data`: the text, or the stage that failed with the error's message.
pub uninterp spec fn zip_entry_text(data: Seq<u8>, entry: Seq<char>) -> Result<Seq<char>, (ZipStage, Seq<char>)>;

/// Calls `zip::ZipArchive::new` on a cursor over a copy of `data`. Claimed:
/// whether it opens, and the message when it does not, are a function of the
/// bytes alone; an opened archive reads from those bytes.
#[verifier::external_body]
pub(crate) fn open_zip(data: &[u8]) -> (r: Result<ZipArchive<Cursor<Vec<u8>>>, String>)
    ensures
        match zip_open_error(data@) {
            Some(m) => r matches Err(e) && e@ == m,
            None => r matches Ok(a) && zip_source(a) == data@,
        },
{
    ZipArchive::new(Cursor::new(data.to_vec())).map_err(|e| e.to_string())
}

/// Looks `entry` up with `ZipArchive::by_name` and reads it with
/// `std::io::Read::read_to_string` (the entry handle `by_name` returns cannot
/// be named in a contract, so both steps stand in this one item). Claimed:
/// the outcome (text, or failing step and message) is a function of the
/// archive's bytes and the entry name alone, and the archive still reads
/// from the same bytes.
#[verifier::external_body]
pub(crate) fn read_zip_text(a: &mut ZipArchive<Cursor<Vec<u8>>>, entry: &str) -> (r: Result<String, (ZipStage, String)>)
    ensures
        zip_source(*final(a)) == zip_source(*old(a)),
        match zip_entry_text(zip_source(*old(a)), entry@) {
            Ok(t) => r matches Ok(x) && x@ == t,
            Err(f) => r matches Err(e) && e.0 == f.0 && e.1@ == f.1,
        },
{
    let mut file = a.by_name(entry).map_err(|e| (ZipStage::Entry, e.to_string()))?;
    let mut text = String::new();
    Read::read_to_string(&mut file, &mut text).map_err(|e| (ZipStage::Read, e.to_string()))?;
    Ok(text)
}

/// The text `base64`'s standard engine (padded) encodes `bytes` as.
pub uninterp spec fn base64_text(bytes: Seq<u8>) -> Seq<char>;

/// What `base64`'s standard engine decodes `text` to; `None` where it reports
/// an error.
pub uninterp spec fn base64_bytes(text: Seq<char>) -> Option<Seq<u8>>;

/// Calls `base64::Engine::encode` with `base64::engine::general_purpose::STANDARD`.
/// Claimed: the text is a function of the bytes alone, and the same engine
/// decodes it back to them (it writes canonical, padded base64, which that
/// engine requires). The crate panics when the encoded length overflows
/// `usize`, which `requires` rules out.
#[verifier::external_body]
pub(crate) fn base64_encode(bytes: &[u8]) -> (r: String)
    requires
        bytes@.len() / 3 * 4 + 4 <= usize::MAX,
    ensures
        r@ == base64_text(bytes@),
        base64_bytes(r@) == Some(bytes@),
{
    base64::Engine::encode(&base64::engine::general_purpose::STANDARD, bytes)
}

/// Calls `base64::Engine::decode` with `base64::engine::general_purpose::STANDARD`.
/// Claimed: success and the bytes are a function of the text alone; on
/// failure the error's message is returned, of which nothing is claimed.
#[verifier::external_body]
pub(crate) fn base64_decode(text: &str) -> (r: Result<Vec<u8>, String>)
    ensures
        match base64_bytes(text@) {
            Some(b) => r matches Ok(x) && x@ == b,
            None => r is Err,
        },
{
    base64::Engine::decode(&base64::engine::general_purpose::STANDARD, text).map_err(|e| e.to_string())
}

// ---------------------------------------------------------------------------
// File names
// ---------------------------------------------------------------------------

/// The last component of `parts` that is neither empty nor `.`.
pub open spec fn last_named(parts: Seq<Seq<char>>) -> Option<Seq<char>>
    decreases parts.len(),
{
    if parts.len() == 0 {
        None
    } else if parts.last().len() > 0 && parts.last() != seq!['.'] {
        Some(parts.last())
    } else {
        last_named(parts.drop_last())
    }
}

/// The file name of a `/`-separated path: its last component, unless that is
/// `..` or there is none.
pub open spec fn file_name(path: Seq<char>) -> Option<Seq<char>> {
    match last_named(split(path, seq!['/'])) {
        Some(c) => if c == seq!['.', '.'] { None } else { Some(c) },
        None => None,
    }
}

/// The extension of a path: what follows the last `.` of its file name, when
/// that `.` is not the name's first character.
pub open spec fn extension(path: Seq<char>) -> Option<Seq<char>> {
    match file_name(path) {
        Some(f) => match rfind(f, seq!['.']) {
            Some(k) => if k > 0 { Some(f.skip(k + 1)) } else { None },
            None => None,
        },
        None => None,
    }
}

/// The extension of `path` (see `extension`).
pub fn file_extension(path: &str) -> (r: Option<Vec<char>>)
    ensures
        match extension(path@) {
            Some(e) => r matches Some(x) && x@ == e,
            None => r is None,
        },
{
    let v = crate::text::chars_of(path);
    let slash = vec!['/'];
    assert(slash@ =~= seq!['/']);
    let parts = split_bounds(&v, &slash);
    let ghost ps = split(v@, seq!['/']);
    let mut j = parts.len();
    let mut hit = false;
    assert(ps.take(parts@.len() as int) =~= ps);
    while j > 0
        invariant_except_break
            !hit,
            last_named(ps) == last_named(ps.take(j as int)),
        invariant
            j <= parts.len(),
            ps == split(v@, seq!['/']),
            delimits(parts@, v@, ps),
        ensures
            !hit ==> last_named(ps) is None,
            hit ==> 0 < j && last_named(ps) == Some(ps[j - 1]),
        decreases j,
    {
        let (a, b) = parts[j - 1];
        let ghost c = ps[j - 1];
        assert(ps.take(j as int).drop_last() =~= ps.take(j - 1));
        assert(ps.take(j as int).last() == c);
        assert(parts@[j - 1].0 <= parts@[j - 1].1);
        assert(v@.subrange(a as int, b as int) == c);
        let is_dot = b > a && b - a == 1 && v[a] == '.';
        proof {
            if b > a && b - a == 1 {
                assert(c.len() == 1 && c[0] == v@[a as int]);
                if v@[a as int] == '.' {
                    assert(c =~= seq!['.']);
                }
            }
            if c == seq!['.'] {
                assert(c.len() == 1);
                assert(c[0] == '.');
            }
        }
        if b > a && !is_dot {
            hit = true;
            break;
        }
        j = j - 1;
    }
    proof {
        if !hit && j == 0 {
            assert(ps.take(0) =~= Seq::<Seq<char>>::empty());
        }
    }
    let found: Option<Vec<char>> = if hit {
        let (a, b) = parts[j - 1];
        let mut comp: Vec<char> = Vec::new();
        extend_range(&mut comp, &v, a, b);
        assert(comp@ == ps[j - 1]);
        Some(comp)
    } else {
        None
    };
    match found {
        None => None,
        Some(f) => {
            if f.len() == 2 && f[0] == '.' && f[1] == '.' {
                assert(f@ =~= seq!['.', '.']);
                return None;
            }
            assert(f@ != seq!['.', '.']);
            let dot = vec!['.'];
            assert(dot@ =~= seq!['.']);
            match rfind_exec(&f, &dot) {
                Some(k) => {
                    if k > 0 {
                        let mut e: Vec<char> = Vec::new();
                        extend_range(&mut e, &f, k + 1, f.len());
                        assert(e@ =~= f@.skip(k + 1));
                        Some(e)
                    } else {
                        None
                    }
                },
                None => None,
            }
        },
    }
}

} // verus!
