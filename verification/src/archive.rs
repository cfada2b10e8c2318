//! Writing a zip archive in memory with the `zip` crate. The functions that
//! call the crate are taken on trust, each saying what it claims of the call;
//! `build_zip` is verified against those claims.

use vstd::prelude::*;
use std::io::{Cursor, Write};
use zip::ZipWriter;
use crate::text::utf8_len;

verus! {

/// An in-memory zip archive being written: a `zip::ZipWriter` over a
/// `std::io::Cursor<Vec<u8>>`. The writer is held in a field Verus does not
/// see, since Verus refuses to declare the writer's type (its parameter is
/// bound by std's `Write` and `Seek`, which Verus does not know).
#[verifier::external_body]
pub struct ZipBuffer {
    writer: ZipWriter<Cursor<Vec<u8>>>,
}

/// The entries written so far to an in-memory zip writer: each started file
/// with the chunks of data written to it, in order. Writers are made only by
/// the functions below, which hand a writer back only when its call
/// succeeded, so the last entry (if any) is the file still open in it.
pub uninterp spec fn zip_written(w: ZipBuffer) -> Seq<(Seq<char>, Seq<Seq<u8>>)>;

/// The archive bytes the writer produces for those entries (the files use
/// the default options: deflate, no encryption, and the fixed 1980-01-01
/// timestamp, since the crate's clock feature is not enabled).
pub uninterp spec fn zip_archive(entries: Seq<(Seq<char>, Seq<Seq<u8>>)>) -> Seq<u8>;

/// Calls `zip::ZipWriter::new` on an empty `std::io::Cursor<Vec<u8>>`.
/// Claimed: no entry is written yet.
#[verifier::external_body]
fn zip_writer_new() -> (w: ZipBuffer)
    ensures
        zip_written(w) == Seq::<(Seq<char>, Seq<Seq<u8>>)>::empty(),
{
    ZipBuffer { writer: ZipWriter::new(Cursor::new(Vec::new())) }
}

/// The number of data bytes in the chunks of one entry.
pub open spec fn chunk_bytes(cs: Seq<Seq<u8>>) -> nat
    decreases cs.len(),
{
    if cs.len() == 0 {
        0
    } else {
        chunk_bytes(cs.drop_last()) + cs.last().len()
    }
}

/// The most data bytes of one file that the archive is sure to take: the
/// crate refuses a file whose compressed size passes 4 GiB, and deflate
/// output of at most 2 GiB of data stays below that.
pub open spec fn zip_file_limit() -> nat {
    0x8000_0000
}

/// Whether the last entry written (if any) holds at most `zip_file_limit` bytes.
pub open spec fn last_fits(ws: Seq<(Seq<char>, Seq<Seq<u8>>)>) -> bool {
    ws.len() == 0 || chunk_bytes(ws.last().1) <= zip_file_limit()
}

/// The names of the entries written.
pub open spec fn written_names(ws: Seq<(Seq<char>, Seq<Seq<u8>>)>) -> Seq<Seq<char>> {
    ws.map_values(|e: (Seq<char>, Seq<Seq<u8>>)| e.0)
}

/// Calls `ZipWriter::start_file` with `SimpleFileOptions::default()`; the
/// writer is handed back on success and dropped on failure, so every writer
/// in hand is one that all calls so far succeeded on (a file is open in it
/// exactly when an entry was started).
/// Claimed: on success a new, empty entry of that name follows the others.
/// The call succeeds when no entry of that name was started before (the
/// crate refuses a duplicate name) and the file written last, which it
/// finishes first, holds at most `zip_file_limit` bytes. A name of more than
/// 65535 bytes makes the crate panic; `requires` leaves it out.
#[verifier::external_body]
fn zip_start_file(w: ZipBuffer, name: &str) -> (r: Result<ZipBuffer, String>)
    requires
        utf8_len(name@) <= 65535,
    ensures
        r matches Ok(n) ==> zip_written(n) == zip_written(w).push((name@, Seq::<Seq<u8>>::empty())),
        (!written_names(zip_written(w)).contains(name@) && last_fits(zip_written(w))) ==> r is Ok,
{
    let mut w = w;
    match w.writer.start_file(name, zip::write::SimpleFileOptions::default()) {
        Ok(()) => Ok(w),
        Err(e) => Err(e.to_string()),
    }
}

/// Calls `std::io::Write::write_all` on the writer with non-empty data; the
/// writer is handed back on success and dropped on failure.
/// Claimed: on success an entry was open and the bytes are one more chunk of
/// it. The call succeeds when an entry is open and its data, these bytes
/// included, stays within 4 GiB (the crate refuses more without the
/// large-file option, and writes to memory do not fail otherwise).
#[verifier::external_body]
fn zip_write_all(w: ZipBuffer, bytes: &[u8]) -> (r: Result<ZipBuffer, String>)
    requires
        bytes@.len() > 0,
    ensures
        r matches Ok(n) ==> zip_written(w).len() > 0 && zip_written(n) == zip_written(w).update(
            zip_written(w).len() - 1,
            (zip_written(w).last().0, zip_written(w).last().1.push(bytes@)),
        ),
        (zip_written(w).len() > 0 && chunk_bytes(zip_written(w).last().1) + bytes@.len() <= u32::MAX) ==> r is Ok,
{
    let mut w = w;
    match w.writer.write_all(bytes) {
        Ok(()) => Ok(w),
        Err(e) => Err(e.to_string()),
    }
}

/// Calls `ZipWriter::finish` and takes the bytes out of the cursor. Claimed:
/// on success they are the archive of the entries written; the call
/// succeeds when the file written last holds at most `zip_file_limit` bytes.
#[verifier::external_body]
fn zip_finish(w: ZipBuffer) -> (r: Result<Vec<u8>, String>)
    ensures
        r matches Ok(b) ==> b@ == zip_archive(zip_written(w)),
        last_fits(zip_written(w)) ==> r is Ok,
{
    w.writer.finish().map(|c| c.into_inner()).map_err(|e| e.to_string())
}

/// Entries of which each file's data is written in one chunk (none when empty).
pub open spec fn one_chunk_each(entries: Seq<(Seq<char>, Seq<u8>)>) -> Seq<(Seq<char>, Seq<Seq<u8>>)> {
    entries.map_values(|e: (Seq<char>, Seq<u8>)| (e.0, if e.1.len() == 0 {
        Seq::<Seq<u8>>::empty()
    } else {
        seq![e.1]
    }))
}

/// The views of (name, data) entries.
pub open spec fn entry_views(v: Seq<(String, Vec<u8>)>) -> Seq<(Seq<char>, Seq<u8>)> {
    v.map_values(|e: (String, Vec<u8>)| (e.0@, e.1@))
}

/// Whether the entries' names are pairwise different.
pub open spec fn names_distinct(es: Seq<(Seq<char>, Seq<u8>)>) -> bool {
    forall|i: int, j: int| 0 <= i < j < es.len() ==> es[i].0 != es[j].0
}

/// Whether each entry's data holds at most `zip_file_limit` bytes.
pub open spec fn data_fits(es: Seq<(Seq<char>, Seq<u8>)>) -> bool {
    forall|i: int| 0 <= i < es.len() ==> (#[trigger] es[i]).1.len() <= zip_file_limit()
}

/// Whether each entry's name takes at most 65535 bytes in UTF-8.
pub open spec fn names_fit(es: Seq<(Seq<char>, Seq<u8>)>) -> bool {
    forall|i: int| 0 <= i < es.len() ==> utf8_len((#[trigger] es[i]).0) <= 65535
}

/// A zip archive holding `entries` in order, each file's data written in
/// one piece; the writer's message when the crate refuses. It succeeds when
/// the names are pairwise different and no file passes `zip_file_limit`.
pub fn build_zip(entries: &Vec<(String, Vec<u8>)>) -> (r: Result<Vec<u8>, String>)
    requires
        names_fit(entry_views(entries@)),
    ensures
        r matches Ok(b) ==> b@ == zip_archive(one_chunk_each(entry_views(entries@))),
        (names_distinct(entry_views(entries@)) && data_fits(entry_views(entries@))) ==> r is Ok,
{
    let ghost ev = entry_views(entries@);
    let ghost good = names_distinct(ev) && data_fits(ev);
    let mut w = zip_writer_new();
    let mut i: usize = 0;
    while i < entries.len()
        invariant
            i <= entries.len(),
            ev == entry_views(entries@),
            names_fit(ev),
            good == (names_distinct(ev) && data_fits(ev)),
            zip_written(w) == one_chunk_each(ev.take(i as int)),
        decreases entries.len() - i,
    {
        let ghost before = zip_written(w);
        proof {
            assert(utf8_len(ev[i as int].0) <= 65535);
            assert(before.len() == i);
            if good {
                assert(!written_names(before).contains(ev[i as int].0)) by {
                    if written_names(before).contains(ev[i as int].0) {
                        let k = choose|k: int| 0 <= k < written_names(before).len() && written_names(before)[k] == ev[i as int].0;
                        assert(written_names(before)[k] == ev[k].0);
                    }
                }
                if i > 0 {
                    let e = ev[i - 1];
                    assert(before.last() == one_chunk_each(ev)[i - 1]);
                    assert(e.1.len() <= zip_file_limit());
                    if e.1.len() == 0 {
                        assert(before.last().1 =~= Seq::<Seq<u8>>::empty());
                    } else {
                        assert(before.last().1 =~= seq![e.1]);
                        assert(seq![e.1].drop_last() =~= Seq::<Seq<u8>>::empty());
                        assert(chunk_bytes(Seq::<Seq<u8>>::empty()) == 0);
                    }
                    assert(chunk_bytes(before.last().1) <= zip_file_limit());
                }
                assert(last_fits(before));
            }
        }
        w = zip_start_file(w, entries[i].0.as_str())?;
        if entries[i].1.len() > 0 {
            proof {
                assert(zip_written(w).last().1 =~= Seq::<Seq<u8>>::empty());
                if good {
                    assert(ev[i as int].1.len() <= zip_file_limit());
                }
            }
            w = zip_write_all(w, entries[i].1.as_slice())?;
        }
        proof {
            assert(one_chunk_each(ev.take(i + 1)) =~= one_chunk_each(ev.take(i as int)).push(
                one_chunk_each(ev)[i as int],
            ));
            assert(zip_written(w) =~= one_chunk_each(ev.take(i + 1)));
        }
        i = i + 1;
    }
    assert(ev.take(i as int) =~= ev);
    proof {
        if good && i > 0 {
            let e = ev[i - 1];
            assert(zip_written(w).last() == one_chunk_each(ev)[i - 1]);
            assert(e.1.len() <= zip_file_limit());
            if e.1.len() == 0 {
                assert(zip_written(w).last().1 =~= Seq::<Seq<u8>>::empty());
            } else {
                assert(zip_written(w).last().1 =~= seq![e.1]);
                assert(seq![e.1].drop_last() =~= Seq::<Seq<u8>>::empty());
                assert(chunk_bytes(Seq::<Seq<u8>>::empty()) == 0);
            }
            assert(chunk_bytes(zip_written(w).last().1) <= zip_file_limit());
        }
        assert(good ==> last_fits(zip_written(w)));
    }
    zip_finish(w)
}

} // verus!
