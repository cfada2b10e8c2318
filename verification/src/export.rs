//! Exporting a laid-out article as a zip archive: the photos and template
//! assets go into `images/`, and the article's placeholders become `<img>`
//! tags pointing at them.

use vstd::prelude::*;
use vstd::utf8::encode_utf8;
use crate::archive::{build_zip, data_fits, entry_views, names_distinct, names_fit, one_chunk_each, zip_archive};
use crate::codec::{base64_bytes};
use crate::dataurl::{data_url_parts, export_ext, parse_data_url, photo_export_ext, DataUrlError};
use crate::materials::PhotoEntry;
use crate::publish::{loaded_views, photo_placeholder};
use crate::templates::{
    after_last_dot, after_last_dot_exec, asset_refs_from, collect_asset_refs,
    lemma_asset_refs_placeholders, lemma_decimal_digits,
};
use crate::text::{chars_of, decimal, decimal_string, digit_char, push_chars, push_str, replace, replace_exec, string_of};

verus! {

/// The archive path of the `idx`-th photo (counted from 1).
pub open spec fn photo_zip_name(idx: nat, p: PhotoEntry) -> Seq<char> {
    "images/img"@ + decimal(idx) + "."@ + export_ext(p.data_url@)
}

/// The `<img>` tag of an exported photo.
pub open spec fn photo_zip_img(path: Seq<char>) -> Seq<char> {
    "<img src=\""@ + path + "\" style=\"width:100%;border-radius:8px;margin:10px 0\" />"@
}

/// The article with the placeholders of the photos from the `i`-th on
/// replaced by their `<img>` tags.
pub open spec fn export_photo_html_from(h: Seq<char>, ps: Seq<PhotoEntry>, i: nat) -> Seq<char>
    decreases ps.len() - i,
{
    if i >= ps.len() {
        h
    } else {
        export_photo_html_from(
            replace(h, photo_placeholder(ps[i as int].name@), photo_zip_img(photo_zip_name(i + 1, ps[i as int]))),
            ps,
            i + 1,
        )
    }
}

/// The article with the photo placeholders replaced.
pub open spec fn export_photo_html(h: Seq<char>, ps: Seq<PhotoEntry>) -> Seq<char> {
    export_photo_html_from(h, ps, 0)
}

/// The archive path of the `i`-th template asset (counted from 0).
pub open spec fn asset_zip_name(i: nat, file: Seq<char>) -> Seq<char> {
    "images/asset"@ + decimal(i + 1) + "."@ + after_last_dot(file)
}

/// The `<img>` tag of an exported template asset.
pub open spec fn asset_zip_img(path: Seq<char>) -> Seq<char> {
    "<img src=\""@ + path + "\" style=\"width:100%;display:block\" />"@
}

/// The article with the asset placeholders from the `i`-th on replaced: by
/// their `<img>` tags where the file was read, by nothing where it was not.
pub open spec fn export_asset_html_from(
    h: Seq<char>,
    refs: Seq<(Seq<char>, Seq<char>, Seq<char>)>,
    found: Seq<bool>,
    i: nat,
) -> Seq<char>
    decreases refs.len() - i,
{
    if i >= refs.len() {
        h
    } else {
        let by = if found[i as int] {
            asset_zip_img(asset_zip_name(i, refs[i as int].2))
        } else {
            Seq::empty()
        };
        export_asset_html_from(replace(h, refs[i as int].0, by), refs, found, i + 1)
    }
}

/// The files of the photos from the `i`-th on: each photo's decoded bytes
/// (none when its data URL has no comma); `None` when one does not decode.
pub open spec fn photo_files_from(ps: Seq<PhotoEntry>, i: nat) -> Option<Seq<(Seq<char>, Seq<u8>)>>
    decreases ps.len() - i,
{
    if i >= ps.len() {
        Some(Seq::empty())
    } else {
        let bytes = match data_url_parts(ps[i as int].data_url@) {
            None => Some(Seq::<u8>::empty()),
            Some(parts) => base64_bytes(parts.1),
        };
        match bytes {
            None => None,
            Some(b) => match photo_files_from(ps, i + 1) {
                Some(rest) => Some(seq![(photo_zip_name(i + 1, ps[i as int]), b)] + rest),
                None => None,
            },
        }
    }
}

/// The files of the template assets from the `i`-th on that were read.
pub open spec fn asset_files_from(
    refs: Seq<(Seq<char>, Seq<char>, Seq<char>)>,
    loaded: Seq<Option<Seq<u8>>>,
    i: nat,
) -> Seq<(Seq<char>, Seq<u8>)>
    decreases refs.len() - i,
{
    if i >= refs.len() {
        Seq::empty()
    } else {
        let rest = asset_files_from(refs, loaded, i + 1);
        match loaded[i as int] {
            Some(b) => seq![(asset_zip_name(i, refs[i as int].2), b)] + rest,
            None => rest,
        }
    }
}

/// Which asset files were read.
pub open spec fn found_of(loaded: Seq<Option<Seq<u8>>>) -> Seq<bool> {
    loaded.map_values(|o: Option<Seq<u8>>| o is Some)
}

/// The files of an exported article, in archive order: the photos, the
/// template assets whose files were read (`loaded`, one entry per asset
/// placeholder of the article once its photos are replaced), and
/// `article.html`; `None` when a photo does not decode.
pub open spec fn export_files(h: Seq<char>, ps: Seq<PhotoEntry>, loaded: Seq<Option<Seq<u8>>>) -> Option<Seq<(Seq<char>, Seq<u8>)>> {
    let h1 = export_photo_html(h, ps);
    let refs = asset_refs_from(h1, 0);
    let h2 = export_asset_html_from(h1, refs, found_of(loaded), 0);
    match photo_files_from(ps, 0) {
        None => None,
        Some(pf) => Some(pf + asset_files_from(refs, loaded, 0) + seq![("article.html"@, encode_utf8(h2))]),
    }
}

/// The article with its photo placeholders replaced by `<img>` tags (see
/// `export_photo_html`); its asset placeholders are the ones whose files the
/// export needs.
pub fn export_photo_html_exec(html: &str, photos: &Vec<PhotoEntry>) -> (r: String)
    ensures
        r@ == export_photo_html(html@, photos@),
{
    let mut h = chars_of(html);
    let mut i: usize = 0;
    while i < photos.len()
        invariant
            i <= photos.len(),
            export_photo_html(html@, photos@) == export_photo_html_from(h@, photos@, i as nat),
        decreases photos.len() - i,
    {
        let p = &photos[i];
        let path = photo_zip_path(i + 1, p);
        let mut ph = String::new();
        push_str(&mut ph, "{{photo:");
        push_str(&mut ph, p.name.as_str());
        push_str(&mut ph, "}}");
        let mut img = String::new();
        push_str(&mut img, "<img src=\"");
        push_str(&mut img, path.as_str());
        push_str(&mut img, "\" style=\"width:100%;border-radius:8px;margin:10px 0\" />");
        let pv = chars_of(ph.as_str());
        let iv = chars_of(img.as_str());
        proof {
            reveal_strlit("{{photo:");
            reveal_strlit("}}");
            assert(pv@ =~= photo_placeholder(photos@[i as int].name@));
            assert(iv@ =~= photo_zip_img(photo_zip_name(i as nat + 1, photos@[i as int])));
        }
        h = replace_exec(&h, &pv, &iv);
        i = i + 1;
    }
    string_of(&h)
}

/// The archive path of the `idx`-th photo.
fn photo_zip_path(idx: usize, p: &PhotoEntry) -> (r: String)
    requires
        idx <= u64::MAX,
    ensures
        r@ == photo_zip_name(idx as nat, *p),
{
    let mut r = String::new();
    push_str(&mut r, "images/img");
    let n = decimal_string(idx as u64);
    push_str(&mut r, n.as_str());
    push_str(&mut r, ".");
    let ext = photo_export_ext(p.data_url.as_str());
    push_str(&mut r, ext.as_str());
    r
}

/// The archive path of the `i`-th asset.
fn asset_zip_path(i: usize, file: &str) -> (r: String)
    requires
        i < u64::MAX,
    ensures
        r@ == asset_zip_name(i as nat, file@),
{
    let mut r = String::new();
    push_str(&mut r, "images/asset");
    let n = decimal_string(i as u64 + 1);
    push_str(&mut r, n.as_str());
    push_str(&mut r, ".");
    let fv = chars_of(file);
    let ext = after_last_dot_exec(&fv);
    push_chars(&mut r, &ext);
    r
}

/// The views of (name, data) entries.
pub open spec fn file_views(v: Seq<(String, Vec<u8>)>) -> Seq<(Seq<char>, Seq<u8>)> {
    entry_views(v)
}

/// The photo files (see `photo_files_from`); `解码失败: …` when one does not decode.
fn photo_files(photos: &Vec<PhotoEntry>) -> (r: Result<Vec<(String, Vec<u8>)>, String>)
    ensures
        match photo_files_from(photos@, 0) {
            Some(fs) => r matches Ok(x) && file_views(x@) == fs,
            None => r is Err,
        },
{
    let mut out: Vec<(String, Vec<u8>)> = Vec::new();
    let mut i: usize = 0;
    while i < photos.len()
        invariant
            i <= photos.len(),
            photo_files_from(photos@, 0) == (match photo_files_from(photos@, i as nat) {
                Some(rest) => Some(file_views(out@) + rest),
                None => None,
            }),
        decreases photos.len() - i,
    {
        let ghost before = file_views(out@);
        let path = photo_zip_path(i + 1, &photos[i]);
        let bytes: Vec<u8> = match parse_data_url(photos[i].data_url.as_str()) {
            Ok((_, b)) => b,
            Err(DataUrlError::Malformed) => Vec::new(),
            Err(e) => {
                return Err(e.message());
            },
        };
        out.push((path, bytes));
        proof {
            let rest = photo_files_from(photos@, i as nat + 1);
            assert(file_views(out@) =~= before.push(file_views(out@).last()));
            if rest is Some {
                assert(file_views(out@) + rest->0 =~= before + (seq![file_views(out@).last()] + rest->0));
            }
        }
        i = i + 1;
    }
    assert(file_views(out@) + Seq::<(Seq<char>, Seq<u8>)>::empty() =~= file_views(out@));
    Ok(out)
}

/// The files of an exported article (see `export_files`); `loaded` holds, for
/// each asset placeholder of the article once its photos are replaced (see
/// `export_photo_html_exec` and `collect_asset_refs`), the asset file's bytes
/// when it could be read. A photo that does not decode gives `解码失败: …`.
pub fn export_entries(html: &str, photos: &Vec<PhotoEntry>, loaded: &Vec<Option<Vec<u8>>>) -> (r: Result<Vec<(String, Vec<u8>)>, String>)
    requires
        loaded@.len() == asset_refs_from(export_photo_html(html@, photos@), 0).len(),
    ensures
        match export_files(html@, photos@, loaded_views(loaded@)) {
            Some(fs) => r matches Ok(x) && file_views(x@) == fs,
            None => r is Err,
        },
{
    let mut files = photo_files(photos)?;
    let h1 = export_photo_html_exec(html, photos);
    let refs = collect_asset_refs(h1.as_str());
    let ghost rv = refs@.map_values(|t: (String, String, String)| (t.0@, t.1@, t.2@));
    let ghost lv = loaded_views(loaded@);
    let ghost found = found_of(lv);
    let ghost pf = file_views(files@);
    proof {
        lemma_asset_refs_placeholders(h1@, 0);
    }
    let mut h = chars_of(h1.as_str());
    let mut i: usize = 0;
    while i < refs.len()
        invariant
            i <= refs.len(),
            rv == refs@.map_values(|t: (String, String, String)| (t.0@, t.1@, t.2@)),
            rv == asset_refs_from(h1@, 0),
            lv == loaded_views(loaded@),
            found == found_of(lv),
            loaded@.len() == rv.len(),
            forall|j: int| 0 <= j < rv.len() ==> (#[trigger] rv[j]).0.len() >= 10,
            export_asset_html_from(h1@, rv, found, 0) == export_asset_html_from(h@, rv, found, i as nat),
            file_views(files@) + asset_files_from(rv, lv, i as nat) == pf + asset_files_from(rv, lv, 0),
        decreases refs.len() - i,
    {
        let full = chars_of(refs[i].0.as_str());
        let ghost before = file_views(files@);
        assert(rv[i as int].0.len() >= 10);
        match &loaded[i] {
            Some(bytes) => {
                let path = asset_zip_path(i, refs[i].2.as_str());
                let mut img = String::new();
                push_str(&mut img, "<img src=\"");
                push_str(&mut img, path.as_str());
                push_str(&mut img, "\" style=\"width:100%;display:block\" />");
                let iv = chars_of(img.as_str());
                assert(iv@ =~= asset_zip_img(asset_zip_name(i as nat, rv[i as int].2)));
                h = replace_exec(&h, &full, &iv);
                let copy = vstd::slice::slice_to_vec(bytes.as_slice());
                files.push((path, copy));
                proof {
                    assert(file_views(files@) =~= before.push((asset_zip_name(i as nat, rv[i as int].2), lv[i as int]->0)));
                    assert(file_views(files@) + asset_files_from(rv, lv, i as nat + 1) =~= before
                        + asset_files_from(rv, lv, i as nat));
                }
            },
            None => {
                let empty: Vec<char> = Vec::new();
                h = replace_exec(&h, &full, &empty);
            },
        }
        i = i + 1;
    }
    let text = string_of(&h);
    let bytes = vstd::slice::slice_to_vec(text.as_str().as_bytes());
    files.push(("article.html".to_owned(), bytes));
    proof {
        reveal_strlit("article.html");
        assert(asset_files_from(rv, lv, i as nat) =~= Seq::<(Seq<char>, Seq<u8>)>::empty());
        assert(file_views(files@) =~= pf + asset_files_from(rv, lv, 0) + seq![("article.html"@, encode_utf8(h@))]);
    }
    Ok(files)
}

// ---------------------------------------------------------------------------
// The archive's names are pairwise different
// ---------------------------------------------------------------------------

proof fn lemma_decimal_injective(a: nat, b: nat)
    requires
        decimal(a) == decimal(b),
    ensures
        a == b,
    decreases a,
{
    lemma_decimal_digits(a);
    lemma_decimal_digits(b);
    if a < 10 && b < 10 {
        assert(decimal(a)[0] == digit_char(a));
        assert(decimal(b)[0] == digit_char(b));
        assert((digit_char(a) as u32) == a + 48);
        assert((digit_char(b) as u32) == b + 48);
    } else if a < 10 {
        lemma_decimal_digits(b / 10);
        assert(decimal(b).len() >= 2);
    } else if b < 10 {
        lemma_decimal_digits(a / 10);
        assert(decimal(a).len() >= 2);
    } else {
        assert(decimal(a).drop_last() =~= decimal(a / 10));
        assert(decimal(b).drop_last() =~= decimal(b / 10));
        lemma_decimal_injective(a / 10, b / 10);
        assert(decimal(a).last() == digit_char(a % 10));
        assert(decimal(b).last() == digit_char(b % 10));
        assert((digit_char(a % 10) as u32) == a % 10 + 48);
        assert((digit_char(b % 10) as u32) == b % 10 + 48);
    }
}

/// Names made of a common prefix, a numeral, a dot and any tail differ when
/// the numbers do.
proof fn lemma_numbered_names_differ(p: Seq<char>, a: nat, b: nat, ea: Seq<char>, eb: Seq<char>)
    requires
        a != b,
    ensures
        p + decimal(a) + "."@ + ea != p + decimal(b) + "."@ + eb,
{
    reveal_strlit(".");
    let da = decimal(a);
    let db = decimal(b);
    let sa = p + da + "."@ + ea;
    let sb = p + db + "."@ + eb;
    lemma_decimal_digits(a);
    lemma_decimal_digits(b);
    if sa == sb {
        if da.len() < db.len() {
            assert(sa[(p.len() + da.len()) as int] == '.');
            assert(sb[(p.len() + da.len()) as int] == db[da.len() as int]);
        } else if db.len() < da.len() {
            assert(sb[(p.len() + db.len()) as int] == '.');
            assert(sa[(p.len() + db.len()) as int] == da[db.len() as int]);
        } else {
            assert(sa.subrange(p.len() as int, (p.len() + da.len()) as int) =~= da);
            assert(sb.subrange(p.len() as int, (p.len() + db.len()) as int) =~= db);
            lemma_decimal_injective(a, b);
        }
    }
}

/// The photo files from the `i`-th on are named after their photos, in order.
proof fn lemma_photo_file_names(ps: Seq<PhotoEntry>, i: nat)
    requires
        i <= ps.len(),
        photo_files_from(ps, i) is Some,
    ensures
        photo_files_from(ps, i)->0.len() == ps.len() - i,
        forall|k: int| 0 <= k < ps.len() - i ==> (#[trigger] photo_files_from(ps, i)->0[k]).0 == photo_zip_name(
            (i + k + 1) as nat,
            ps[i + k],
        ),
    decreases ps.len() - i,
{
    if i < ps.len() {
        lemma_photo_file_names(ps, i + 1);
        let rest = photo_files_from(ps, i + 1)->0;
        assert forall|k: int| 0 <= k < ps.len() - i implies (#[trigger] photo_files_from(ps, i)->0[k]).0
            == photo_zip_name((i + k + 1) as nat, ps[i + k]) by {
            if k > 0 {
                assert(photo_files_from(ps, i)->0[k] == rest[k - 1]);
            }
        }
    }
}

/// The asset files from the `i`-th on have pairwise different names, each
/// the name of some asset from the `i`-th on.
proof fn lemma_asset_file_names(
    refs: Seq<(Seq<char>, Seq<char>, Seq<char>)>,
    loaded: Seq<Option<Seq<u8>>>,
    i: nat,
)
    ensures
        forall|k: int| 0 <= k < asset_files_from(refs, loaded, i).len() ==> exists|j: nat| i <= j < refs.len()
            && (#[trigger] asset_files_from(refs, loaded, i)[k]).0 == asset_zip_name(j, refs[j as int].2),
        names_distinct(asset_files_from(refs, loaded, i)),
    decreases refs.len() - i,
{
    if i < refs.len() {
        lemma_asset_file_names(refs, loaded, i + 1);
        let rest = asset_files_from(refs, loaded, i + 1);
        let fs = asset_files_from(refs, loaded, i);
        if loaded[i as int] is Some {
            assert forall|k: int| 0 <= k < fs.len() implies exists|j: nat| i <= j < refs.len()
                && (#[trigger] fs[k]).0 == asset_zip_name(j, refs[j as int].2) by {
                if k == 0 {
                    assert(fs[0].0 == asset_zip_name(i, refs[i as int].2));
                } else {
                    assert(fs[k] == rest[k - 1]);
                }
            }
            assert forall|a: int, b: int| 0 <= a < b < fs.len() implies fs[a].0 != fs[b].0 by {
                if a == 0 {
                    assert(fs[b] == rest[b - 1]);
                    let j = choose|j: nat| i + 1 <= j < refs.len() && (#[trigger] rest[b - 1]).0 == asset_zip_name(
                        j,
                        refs[j as int].2,
                    );
                    lemma_numbered_names_differ(
                        "images/asset"@,
                        i + 1,
                        j + 1,
                        after_last_dot(refs[i as int].2),
                        after_last_dot(refs[j as int].2),
                    );
                } else {
                    assert(fs[a] == rest[a - 1]);
                    assert(fs[b] == rest[b - 1]);
                }
            }
        }
    }
}

/// The files of an export have pairwise different names.
pub proof fn lemma_export_names_distinct(h: Seq<char>, ps: Seq<PhotoEntry>, loaded: Seq<Option<Seq<u8>>>)
    requires
        export_files(h, ps, loaded) is Some,
    ensures
        names_distinct(export_files(h, ps, loaded)->0),
{
    reveal_strlit("images/img");
    reveal_strlit("images/asset");
    reveal_strlit("article.html");
    let refs = asset_refs_from(export_photo_html(h, ps), 0);
    let pf = photo_files_from(ps, 0)->0;
    let af = asset_files_from(refs, loaded, 0);
    let fs = export_files(h, ps, loaded)->0;
    lemma_photo_file_names(ps, 0);
    lemma_asset_file_names(refs, loaded, 0);
    assert(fs == pf + af + seq![("article.html"@, fs.last().1)]);
    assert forall|a: int, b: int| 0 <= a < b < fs.len() implies fs[a].0 != fs[b].0 by {
        if b < pf.len() {
            assert(fs[a] == pf[a] && fs[b] == pf[b]);
            lemma_numbered_names_differ("images/img"@, (a + 1) as nat, (b + 1) as nat, export_ext(ps[a].data_url@), export_ext(ps[b].data_url@));
        } else if b < pf.len() + af.len() {
            assert(fs[b] == af[b - pf.len()]);
            let jb = choose|j: nat| 0 <= j < refs.len() && (#[trigger] af[b - pf.len()]).0 == asset_zip_name(j, refs[j as int].2);
            if a < pf.len() {
                assert(fs[a] == pf[a]);
                assert(fs[a].0[7] == 'i');
                assert(fs[b].0[7] == 'a');
            } else {
                assert(fs[a] == af[a - pf.len()]);
            }
        } else {
            assert(fs[b].0 == "article.html"@);
            assert(fs[b].0[0] == 'a');
            if a < pf.len() {
                assert(fs[a] == pf[a]);
                assert(fs[a].0[0] == 'i');
            } else {
                assert(fs[a] == af[a - pf.len()]);
                let ja = choose|j: nat| 0 <= j < refs.len() && (#[trigger] af[a - pf.len()]).0 == asset_zip_name(j, refs[j as int].2);
                assert(fs[a].0[0] == 'i');
            }
        }
    }
}

/// The zip archive of an exported article: the files of `export_entries`
/// in that order. It is made whenever the photos decode and no file passes
/// the archive's size limit (`zip_file_limit`); a file name of more than
/// 65535 bytes makes the zip crate panic, and `requires` leaves it out.
pub fn export_zip(html: &str, photos: &Vec<PhotoEntry>, loaded: &Vec<Option<Vec<u8>>>) -> (r: Result<Vec<u8>, String>)
    requires
        loaded@.len() == asset_refs_from(export_photo_html(html@, photos@), 0).len(),
        export_files(html@, photos@, loaded_views(loaded@)) matches Some(fs) ==> names_fit(fs),
    ensures
        r matches Ok(b) ==> (export_files(html@, photos@, loaded_views(loaded@)) matches Some(fs) && b@ == zip_archive(
            one_chunk_each(fs),
        )),
        export_files(html@, photos@, loaded_views(loaded@)) is None ==> r is Err,
        (export_files(html@, photos@, loaded_views(loaded@)) matches Some(fs) && data_fits(fs)) ==> r is Ok,
{
    let files = export_entries(html, photos, loaded)?;
    proof {
        lemma_export_names_distinct(html@, photos@, loaded_views(loaded@));
    }
    build_zip(&files)
}

} // verus!
