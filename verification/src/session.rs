//! Saved sessions: the values a saved session file holds, what saving writes
//! into it, and how loading one restores the workspace. A field missing from
//! the file (or of the wrong kind) takes its default: empty text, zero,
//! `false`; the material and photo lists are replaced only when the file has
//! them.

use vstd::prelude::*;
use crate::materials::PhotoEntry;
use crate::store::{MaterialEntry, Shelf};
use crate::writer::Annotation;

verus! {

/// A material as a session file holds it.
pub struct MaterialRecord {
    pub name: Option<String>,
    pub content: Option<String>,
    pub size: Option<u64>,
}

/// A photo as a session file holds it.
pub struct PhotoRecord {
    pub name: Option<String>,
    pub data_url: Option<String>,
    pub description: Option<String>,
    pub width: Option<u64>,
    pub height: Option<u64>,
    pub required: Option<bool>,
}

/// The values of a session file; a field is `None` when the file lacks it.
pub struct SessionDoc {
    pub topic: Option<String>,
    pub article_type: Option<String>,
    pub draft: Option<String>,
    pub annotations: Option<Vec<Annotation>>,
    pub materials: Option<Vec<MaterialRecord>>,
    pub photos: Option<Vec<PhotoRecord>>,
}

/// What loading a session gives back besides the restored lists.
pub struct RestoredSession {
    pub topic: String,
    pub article_type: Option<String>,
    pub draft: String,
    pub annotations: Vec<Annotation>,
}

/// A text field's value, empty when missing.
pub open spec fn text_or_empty(o: Option<String>) -> Seq<char> {
    match o {
        Some(s) => s@,
        None => Seq::empty(),
    }
}

/// A number field's value, zero when missing.
pub open spec fn number_or_zero(o: Option<u64>) -> u64 {
    match o {
        Some(n) => n,
        None => 0,
    }
}

/// The material that a record restores (a size wider than the machine word
/// is cut to it).
pub open spec fn restores_material(r: MaterialRecord, m: MaterialEntry) -> bool {
    &&& m.name@ == text_or_empty(r.name)
    &&& m.content@ == text_or_empty(r.content)
    &&& m.size == number_or_zero(r.size) as usize
}

/// The photo that a record restores (a width or height over `u32` is cut
/// to 32 bits).
pub open spec fn restores_photo(r: PhotoRecord, p: PhotoEntry) -> bool {
    &&& p.name@ == text_or_empty(r.name)
    &&& p.data_url@ == text_or_empty(r.data_url)
    &&& p.description@ == text_or_empty(r.description)
    &&& p.width == number_or_zero(r.width) as u32
    &&& p.height == number_or_zero(r.height) as u32
    &&& p.required == (match r.required {
        Some(b) => b,
        None => false,
    })
}

/// Whether `after` is the list that `recs`, when the file has it, puts in
/// place of `before`.
pub open spec fn restored_list<R, T>(
    recs: Option<Seq<R>>,
    before: Seq<T>,
    after: Seq<T>,
    restores: spec_fn(R, T) -> bool,
) -> bool {
    match recs {
        Some(rs) => after.len() == rs.len() && forall|i: int| 0 <= i < rs.len() ==> restores(rs[i], #[trigger] after[i]),
        None => after == before,
    }
}

/// The records of a file's material list, as a sequence.
pub open spec fn material_records(d: SessionDoc) -> Option<Seq<MaterialRecord>> {
    match d.materials {
        Some(v) => Some(v@),
        None => None,
    }
}

/// The records of a file's photo list, as a sequence.
pub open spec fn photo_records(d: SessionDoc) -> Option<Seq<PhotoRecord>> {
    match d.photos {
        Some(v) => Some(v@),
        None => None,
    }
}

/// What loading the session file `d` does: the text fields and annotations
/// it gives back (defaults where missing), and the lists it restores.
pub open spec fn restored(
    d: SessionDoc,
    r: RestoredSession,
    mats_before: Seq<MaterialEntry>,
    mats_after: Seq<MaterialEntry>,
    photos_before: Seq<PhotoEntry>,
    photos_after: Seq<PhotoEntry>,
) -> bool {
    &&& r.topic@ == text_or_empty(d.topic)
    &&& r.article_type == d.article_type
    &&& r.draft@ == text_or_empty(d.draft)
    &&& r.annotations@ == (match d.annotations {
        Some(a) => a@,
        None => Seq::empty(),
    })
    &&& restored_list(material_records(d), mats_before, mats_after, |r: MaterialRecord, m: MaterialEntry| restores_material(r, m))
    &&& restored_list(photo_records(d), photos_before, photos_after, |r: PhotoRecord, p: PhotoEntry| restores_photo(r, p))
}

fn text_of(o: &Option<String>) -> (s: String)
    ensures
        s@ == text_or_empty(*o),
{
    match o {
        Some(s) => s.clone(),
        None => String::new(),
    }
}

fn number_of(o: Option<u64>) -> (n: u64)
    ensures
        n == number_or_zero(o),
{
    match o {
        Some(n) => n,
        None => 0,
    }
}

fn material_of(r: &MaterialRecord) -> (m: MaterialEntry)
    ensures
        restores_material(*r, m),
{
    let size = number_of(r.size);
    MaterialEntry { name: text_of(&r.name), content: text_of(&r.content), size: size as usize }
}

fn photo_of(r: &PhotoRecord) -> (p: PhotoEntry)
    ensures
        restores_photo(*r, p),
{
    let w = number_of(r.width);
    let h = number_of(r.height);
    let required = match r.required {
        Some(b) => b,
        None => false,
    };
    PhotoEntry {
        name: text_of(&r.name),
        data_url: text_of(&r.data_url),
        description: text_of(&r.description),
        width: w as u32,
        height: h as u32,
        required,
    }
}

/// Restores the workspace from a loaded session file: gives back the topic,
/// article type, draft and annotations (empty when missing), and replaces
/// the materials and photos by the file's lists when it has them, keeping
/// them otherwise.
pub fn restore_session(
    doc: SessionDoc,
    mats: &mut Shelf<MaterialEntry>,
    photos: &mut Shelf<PhotoEntry>,
) -> (r: RestoredSession)
    ensures
        restored(doc, r, old(mats)@, final(mats)@, old(photos)@, final(photos)@),
{
    match &doc.materials {
        Some(recs) => {
            let mut list: Vec<MaterialEntry> = Vec::new();
            let mut i: usize = 0;
            while i < recs.len()
                invariant
                    i <= recs@.len(),
                    list@.len() == i,
                    forall|k: int| 0 <= k < i ==> restores_material(recs@[k], #[trigger] list@[k]),
                decreases recs@.len() - i,
            {
                list.push(material_of(&recs[i]));
                i = i + 1;
            }
            mats.replace_all(list);
        },
        None => {},
    }
    match &doc.photos {
        Some(recs) => {
            let mut list: Vec<PhotoEntry> = Vec::new();
            let mut i: usize = 0;
            while i < recs.len()
                invariant
                    i <= recs@.len(),
                    list@.len() == i,
                    forall|k: int| 0 <= k < i ==> restores_photo(recs@[k], #[trigger] list@[k]),
                decreases recs@.len() - i,
            {
                list.push(photo_of(&recs[i]));
                i = i + 1;
            }
            photos.replace_all(list);
        },
        None => {},
    }
    let topic = text_of(&doc.topic);
    let draft = text_of(&doc.draft);
    let SessionDoc { article_type, annotations, .. } = doc;
    let annotations = match annotations {
        Some(a) => a,
        None => Vec::new(),
    };
    RestoredSession { topic, article_type, draft, annotations }
}

// ---------------------------------------------------------------------------
// Saving
// ---------------------------------------------------------------------------

/// The record that saving a material writes.
pub open spec fn saves_material(m: MaterialEntry, r: MaterialRecord) -> bool {
    &&& r.name == Some(m.name)
    &&& r.content == Some(m.content)
    &&& r.size == Some(m.size as u64)
}

/// The record that saving a photo writes.
pub open spec fn saves_photo(p: PhotoEntry, r: PhotoRecord) -> bool {
    &&& r.name == Some(p.name)
    &&& r.data_url == Some(p.data_url)
    &&& r.description == Some(p.description)
    &&& r.width == Some(p.width as u64)
    &&& r.height == Some(p.height as u64)
    &&& r.required == Some(p.required)
}

/// Whether `d` is the session file that saving these values writes.
pub open spec fn saved(
    d: SessionDoc,
    topic: String,
    article_type: Option<String>,
    draft: String,
    annotations: Seq<Annotation>,
    mats: Seq<MaterialEntry>,
    photos: Seq<PhotoEntry>,
) -> bool {
    &&& d.topic == Some(topic)
    &&& d.article_type == article_type
    &&& d.draft == Some(draft)
    &&& d.annotations matches Some(a) && a@ == annotations
    &&& material_records(d) matches Some(ms) && ms.len() == mats.len() && forall|i: int|
        0 <= i < mats.len() ==> saves_material(mats[i], #[trigger] ms[i])
    &&& photo_records(d) matches Some(ps) && ps.len() == photos.len() && forall|i: int|
        0 <= i < photos.len() ==> saves_photo(photos[i], #[trigger] ps[i])
}

/// The session file for the workspace: the topic, article type, draft and
/// annotations given, and every material and photo with all its fields.
pub fn session_doc(
    topic: String,
    article_type: Option<String>,
    draft: String,
    annotations: Vec<Annotation>,
    mats: &Shelf<MaterialEntry>,
    photos: &Shelf<PhotoEntry>,
) -> (d: SessionDoc)
    ensures
        saved(d, topic, article_type, draft, annotations@, mats@, photos@),
{
    let items = mats.items();
    let mut ms: Vec<MaterialRecord> = Vec::new();
    let mut i: usize = 0;
    while i < items.len()
        invariant
            i <= items@.len(),
            items@ == mats@,
            ms@.len() == i,
            forall|k: int| 0 <= k < i ==> saves_material(items@[k], #[trigger] ms@[k]),
        decreases items@.len() - i,
    {
        let m = &items[i];
        ms.push(MaterialRecord { name: Some(m.name.clone()), content: Some(m.content.clone()), size: Some(m.size as u64) });
        i = i + 1;
    }
    let items = photos.items();
    let mut ps: Vec<PhotoRecord> = Vec::new();
    let mut j: usize = 0;
    while j < items.len()
        invariant
            j <= items@.len(),
            items@ == photos@,
            ps@.len() == j,
            forall|k: int| 0 <= k < j ==> saves_photo(items@[k], #[trigger] ps@[k]),
        decreases items@.len() - j,
    {
        let p = &items[j];
        ps.push(
            PhotoRecord {
                name: Some(p.name.clone()),
                data_url: Some(p.data_url.clone()),
                description: Some(p.description.clone()),
                width: Some(p.width as u64),
                height: Some(p.height as u64),
                required: Some(p.required),
            },
        );
        j = j + 1;
    }
    SessionDoc {
        topic: Some(topic),
        article_type,
        draft: Some(draft),
        annotations: Some(annotations),
        materials: Some(ms),
        photos: Some(ps),
    }
}

/// Whether two materials hold the same name, text and size.
pub open spec fn same_material(a: MaterialEntry, b: MaterialEntry) -> bool {
    a.name@ == b.name@ && a.content@ == b.content@ && a.size == b.size
}

/// Whether two photos hold the same fields.
pub open spec fn same_photo(a: PhotoEntry, b: PhotoEntry) -> bool {
    &&& a.name@ == b.name@ && a.data_url@ == b.data_url@ && a.description@ == b.description@
    &&& a.width == b.width && a.height == b.height && a.required == b.required
}

/// Loading a saved session gives back what was saved: the topic, article
/// type, draft and annotations, and the materials and photos in the same
/// order with the same fields, whatever the workspace held before loading.
pub proof fn law_session_round_trip(
    d: SessionDoc,
    topic: String,
    article_type: Option<String>,
    draft: String,
    annotations: Seq<Annotation>,
    mats: Seq<MaterialEntry>,
    photos: Seq<PhotoEntry>,
    r: RestoredSession,
    mats_before: Seq<MaterialEntry>,
    mats_after: Seq<MaterialEntry>,
    photos_before: Seq<PhotoEntry>,
    photos_after: Seq<PhotoEntry>,
)
    requires
        saved(d, topic, article_type, draft, annotations, mats, photos),
        restored(d, r, mats_before, mats_after, photos_before, photos_after),
    ensures
        r.topic@ == topic@,
        r.article_type == article_type,
        r.draft@ == draft@,
        r.annotations@ == annotations,
        mats_after.len() == mats.len(),
        forall|i: int| 0 <= i < mats.len() ==> same_material(#[trigger] mats_after[i], mats[i]),
        photos_after.len() == photos.len(),
        forall|i: int| 0 <= i < photos.len() ==> same_photo(#[trigger] photos_after[i], photos[i]),
{
    let ms = material_records(d)->0;
    let ps = photo_records(d)->0;
    assert forall|i: int| 0 <= i < mats.len() implies same_material(#[trigger] mats_after[i], mats[i]) by {
        assert(saves_material(mats[i], ms[i]));
        assert(restores_material(ms[i], mats_after[i]));
        assert((mats[i].size as u64) as usize == mats[i].size);
    }
    assert forall|i: int| 0 <= i < photos.len() implies same_photo(#[trigger] photos_after[i], photos[i]) by {
        assert(saves_photo(photos[i], ps[i]));
        assert(restores_photo(ps[i], photos_after[i]));
    }
}

} // verus!
