//! The workspace's uploaded materials and photos: lists keyed by file name,
//! where uploading a file of a name already present replaces the old entry.

use vstd::prelude::*;
use crate::materials::{MaterialLibrary, PhotoEntry};
use crate::text::{str_byte_len, str_eq_chars, chars_of, utf8_len};

verus! {

/// An item known by its name.
pub trait Named {
    /// The item's name.
    spec fn key(&self) -> Seq<char>;

    /// The item's name.
    fn name_str(&self) -> (r: &str)
        ensures
            r@ == self.key(),
    ;
}

/// An uploaded material: its name, its extracted text and that text's size
/// in bytes.
pub struct MaterialEntry {
    pub name: String,
    pub content: String,
    pub size: usize,
}

impl Named for MaterialEntry {
    open spec fn key(&self) -> Seq<char> {
        self.name@
    }

    fn name_str(&self) -> (r: &str) {
        self.name.as_str()
    }
}

impl Named for PhotoEntry {
    open spec fn key(&self) -> Seq<char> {
        self.name@
    }

    fn name_str(&self) -> (r: &str) {
        self.name.as_str()
    }
}

/// `s` without its items named `n`, the others kept in order.
pub open spec fn without<T: Named>(s: Seq<T>, n: Seq<char>) -> Seq<T> {
    s.filter(|x: T| x.key() != n)
}

/// Appending an item to a list appends it to the items kept, unless it is
/// named `n`.
pub proof fn lemma_without_push<T: Named>(s: Seq<T>, x: T, n: Seq<char>)
    ensures
        without(s.push(x), n) == (if x.key() != n {
            without(s, n).push(x)
        } else {
            without(s, n)
        }),
{
    reveal(Seq::filter);
    assert(s.push(x).drop_last() =~= s);
    assert(s.push(x).last() == x);
}

/// What a list with one more item contains.
pub proof fn lemma_push_contains<T>(s: Seq<T>, x: T, y: T)
    ensures
        s.push(x).contains(y) <==> (s.contains(y) || x == y),
{
    if s.contains(y) {
        let j = choose|j: int| 0 <= j < s.len() && s[j] == y;
        assert(s.push(x)[j] == y);
    }
    if x == y {
        assert(s.push(x)[s.len() as int] == y);
    }
    if s.push(x).contains(y) {
        let j = choose|j: int| 0 <= j < s.push(x).len() && s.push(x)[j] == y;
        if j < s.len() {
            assert(s[j] == y);
        }
    }
}

/// The index of the first item of `s` named `n`.
pub open spec fn index_of_key<T: Named>(s: Seq<T>, n: Seq<char>) -> Option<int>
    decreases s.len(),
{
    if s.len() == 0 {
        None
    } else if s[0].key() == n {
        Some(0)
    } else {
        match index_of_key(s.drop_first(), n) {
            Some(j) => Some(j + 1),
            None => None,
        }
    }
}

pub proof fn lemma_index_of_key<T: Named>(s: Seq<T>, n: Seq<char>)
    ensures
        index_of_key(s, n) matches Some(j) ==> 0 <= j < s.len() && s[j].key() == n && forall|k: int|
            0 <= k < j ==> (#[trigger] s[k]).key() != n,
        index_of_key(s, n) is None ==> forall|k: int| 0 <= k < s.len() ==> (#[trigger] s[k]).key() != n,
    decreases s.len(),
{
    if s.len() > 0 && s[0].key() != n {
        lemma_index_of_key(s.drop_first(), n);
        assert forall|k: int| 1 <= k < s.len() implies #[trigger] s[k] == s.drop_first()[k - 1] by {}
    }
}

/// A list of items in upload order.
pub struct Shelf<T> {
    items: Vec<T>,
}

impl<T> View for Shelf<T> {
    type V = Seq<T>;

    closed spec fn view(&self) -> Seq<T> {
        self.items@
    }
}

impl<T: Named> Shelf<T> {
    /// An empty list.
    pub fn new() -> (s: Self)
        ensures
            s@ == Seq::<T>::empty(),
    {
        Shelf { items: Vec::new() }
    }

    /// The items, in order.
    pub fn items(&self) -> (r: &Vec<T>)
        ensures
            r@ == self@,
    {
        &self.items
    }

    /// The number of items.
    pub fn len(&self) -> (n: usize)
        ensures
            n == self@.len(),
    {
        self.items.len()
    }

    /// Removes every item named `name`; the others keep their order.
    pub fn remove(&mut self, name: &str)
        ensures
            final(self)@ == without(old(self)@, name@),
    {
        let ghost orig = self.items@;
        let mut i: usize = 0;
        let ghost mut k: int = 0;
        assert(orig.take(0) =~= Seq::<T>::empty());
        assert(orig.skip(0) =~= orig);
        while i < self.items.len()
            invariant
                0 <= k <= orig.len(),
                self.items@ == without(orig.take(k), name@) + orig.skip(k),
                i == without(orig.take(k), name@).len(),
            decreases self.items.len() - i,
        {
            proof {
                assert(self.items@[i as int] == orig[k]);
                assert(orig.take(k + 1) =~= orig.take(k).push(orig[k]));
                lemma_without_push(orig.take(k), orig[k], name@);
            }
            if str_eq_chars(self.items[i].name_str(), &chars_of(name)) {
                self.items.remove(i);
                proof {
                    assert(without(orig.take(k + 1), name@) == without(orig.take(k), name@));
                    assert(self.items@ =~= without(orig.take(k + 1), name@) + orig.skip(k + 1));
                    k = k + 1;
                }
            } else {
                proof {
                    assert(without(orig.take(k + 1), name@) == without(orig.take(k), name@).push(orig[k]));
                    assert(self.items@ =~= without(orig.take(k + 1), name@) + orig.skip(k + 1));
                    k = k + 1;
                }
                i = i + 1;
            }
        }
        proof {
            if k < orig.len() {
                assert(self.items@.len() > i);
            }
            assert(orig.take(k) =~= orig);
            assert(orig.skip(k) =~= Seq::<T>::empty());
            assert(self.items@ =~= without(orig, name@));
        }
    }

    /// Adds `x` at the end, after removing the items of the same name.
    pub fn upsert(&mut self, x: T)
        ensures
            final(self)@ == without(old(self)@, x.key()).push(x),
    {
        let key = x.name_str().to_owned();
        self.remove(key.as_str());
        self.items.push(x);
    }

    /// Replaces all items by `xs`.
    pub fn replace_all(&mut self, xs: Vec<T>)
        ensures
            final(self)@ == xs@,
    {
        self.items = xs;
    }

    /// The index of the first item named `name`.
    pub fn position(&self, name: &str) -> (r: Option<usize>)
        ensures
            r == (match index_of_key(self@, name@) {
                Some(j) => Some(j as usize),
                None => None,
            }),
            r matches Some(j) ==> index_of_key(self@, name@) == Some(j as int),
            r is None ==> index_of_key(self@, name@) is None,
    {
        let nv = chars_of(name);
        let ghost s = self.items@;
        let mut j: usize = 0;
        assert(s.skip(0) =~= s);
        while j < self.items.len()
            invariant
                j <= self.items.len(),
                s == self.items@,
                nv@ == name@,
                index_of_key(s, name@) == (match index_of_key(s.skip(j as int), name@) {
                    Some(k) => Some(k + j),
                    None => None,
                }),
            decreases self.items.len() - j,
        {
            assert(s.skip(j as int)[0] == s[j as int]);
            assert(s.skip(j as int).drop_first() =~= s.skip(j + 1));
            if str_eq_chars(self.items[j].name_str(), &nv) {
                return Some(j);
            }
            j = j + 1;
        }
        assert(s.skip(j as int) =~= Seq::<T>::empty());
        None
    }
}

// ---------------------------------------------------------------------------
// Laws of the shelf
// ---------------------------------------------------------------------------

/// The items kept are exactly the items not named `n`.
pub proof fn lemma_without_contains<T: Named>(s: Seq<T>, n: Seq<char>, y: T)
    ensures
        without(s, n).contains(y) <==> (s.contains(y) && y.key() != n),
    decreases s.len(),
{
    if s.len() == 0 {
        reveal(Seq::filter);
        assert(without(s, n) =~= Seq::<T>::empty());
    } else {
        let d = s.drop_last();
        let l = s.last();
        assert(s =~= d.push(l));
        lemma_without_contains(d, n, y);
        lemma_without_push(d, l, n);
        lemma_push_contains(d, l, y);
        lemma_push_contains(without(d, n), l, y);
    }
}

/// No item named `n` is left once they are removed.
pub proof fn lemma_without_none<T: Named>(s: Seq<T>, n: Seq<char>)
    ensures
        forall|j: int| 0 <= j < without(s, n).len() ==> (#[trigger] without(s, n)[j]).key() != n,
{
    assert forall|j: int| 0 <= j < without(s, n).len() implies (#[trigger] without(s, n)[j]).key() != n by {
        let y = without(s, n)[j];
        assert(without(s, n).contains(y));
        lemma_without_contains(s, n, y);
    }
}

/// After a file is uploaded, the list holds exactly one item of its name, at
/// the end, and the items of other names are those there were before.
pub proof fn law_upload_replaces<T: Named>(before: Seq<T>, x: T)
    ensures
        ({
            let after = without(before, x.key()).push(x);
            &&& after.last() == x
            &&& forall|j: int| 0 <= j < after.len() - 1 ==> (#[trigger] after[j]).key() != x.key()
            &&& forall|y: T| y.key() != x.key() ==> (after.contains(y) <==> before.contains(y))
        }),
{
    let after = without(before, x.key()).push(x);
    lemma_without_none(before, x.key());
    assert forall|j: int| 0 <= j < after.len() - 1 implies (#[trigger] after[j]).key() != x.key() by {
        assert(after[j] == without(before, x.key())[j]);
    }
    assert forall|y: T| y.key() != x.key() implies (after.contains(y) <==> before.contains(y)) by {
        lemma_without_contains(before, x.key(), y);
        if after.contains(y) {
            let j = choose|j: int| 0 <= j < after.len() && after[j] == y;
            assert(j < after.len() - 1);
            assert(without(before, x.key())[j] == y);
        }
        if without(before, x.key()).contains(y) {
            let j = choose|j: int| 0 <= j < without(before, x.key()).len() && without(before, x.key())[j] == y;
            assert(after[j] == y);
        }
    }
}

/// After a name is removed, no item of that name is left and every item of
/// another name is still there.
pub proof fn law_remove_only_that_name<T: Named>(before: Seq<T>, n: Seq<char>)
    ensures
        forall|j: int| 0 <= j < without(before, n).len() ==> (#[trigger] without(before, n)[j]).key() != n,
        forall|y: T| y.key() != n ==> (without(before, n).contains(y) <==> before.contains(y)),
{
    lemma_without_none(before, n);
    assert forall|y: T| y.key() != n implies (without(before, n).contains(y) <==> before.contains(y)) by {
        lemma_without_contains(before, n, y);
    }
}

// ---------------------------------------------------------------------------
// Materials and photos
// ---------------------------------------------------------------------------

/// An uploaded material whose size is the byte length of its text.
pub fn material_entry(name: String, content: String) -> (m: MaterialEntry)
    ensures
        m.name@ == name@,
        m.content@ == content@,
        m.size == utf8_len(content@),
{
    let size = str_byte_len(content.as_str());
    MaterialEntry { name, content, size }
}

/// The (name, text) pairs of materials.
pub open spec fn material_texts(s: Seq<MaterialEntry>) -> Seq<(Seq<char>, Seq<char>)> {
    s.map_values(|m: MaterialEntry| (m.name@, m.content@))
}

impl Shelf<MaterialEntry> {
    /// The library of the uploaded materials, in upload order.
    pub fn library(&self) -> (lib: MaterialLibrary)
        ensures
            lib@ == material_texts(self@),
    {
        let mut lib = MaterialLibrary::new();
        let mut i: usize = 0;
        while i < self.items.len()
            invariant
                i <= self.items.len(),
                lib@ == material_texts(self.items@.take(i as int)),
            decreases self.items.len() - i,
        {
            lib.add_text(self.items[i].name.as_str(), self.items[i].content.as_str());
            assert(material_texts(self.items@.take(i + 1)) =~= material_texts(self.items@.take(i as int)).push(
                (self.items@[i as int].name@, self.items@[i as int].content@),
            ));
            i = i + 1;
        }
        assert(self.items@.take(i as int) =~= self.items@);
        lib
    }
}

/// A newly uploaded photo: no description, not required.
pub fn new_photo(name: String, data_url: String, width: u32, height: u32) -> (p: PhotoEntry)
    ensures
        p.name@ == name@,
        p.data_url@ == data_url@,
        p.description@ == Seq::<char>::empty(),
        p.width == width,
        p.height == height,
        !p.required,
{
    PhotoEntry { name, data_url, description: String::new(), width, height, required: false }
}

/// `p` with another description.
pub open spec fn described(p: PhotoEntry, d: String) -> PhotoEntry {
    PhotoEntry {
        name: p.name,
        data_url: p.data_url,
        description: d,
        width: p.width,
        height: p.height,
        required: p.required,
    }
}

/// `p` with the required mark set to `r`.
pub open spec fn marked(p: PhotoEntry, r: bool) -> PhotoEntry {
    PhotoEntry {
        name: p.name,
        data_url: p.data_url,
        description: p.description,
        width: p.width,
        height: p.height,
        required: r,
    }
}

impl Shelf<PhotoEntry> {
    /// Sets the description of the first photo named `name`; false when there
    /// is none.
    pub fn set_description(&mut self, name: &str, description: String) -> (found: bool)
        ensures
            match index_of_key(old(self)@, name@) {
                Some(j) => found && final(self)@ == old(self)@.update(j, described(old(self)@[j], description)),
                None => !found && final(self)@ == old(self)@,
            },
    {
        match self.position(name) {
            Some(j) => {
                proof { lemma_index_of_key(self@, name@); }
                let mut p = self.items.remove(j);
                p.description = description;
                self.items.insert(j, p);
                assert(self.items@ =~= old(self)@.update(j as int, described(old(self)@[j as int], description)));
                true
            },
            None => false,
        }
    }

    /// Marks the first photo named `name` as required or not; false when
    /// there is none.
    pub fn set_required(&mut self, name: &str, required: bool) -> (found: bool)
        ensures
            match index_of_key(old(self)@, name@) {
                Some(j) => found && final(self)@ == old(self)@.update(j, marked(old(self)@[j], required)),
                None => !found && final(self)@ == old(self)@,
            },
    {
        match self.position(name) {
            Some(j) => {
                proof { lemma_index_of_key(self@, name@); }
                let mut p = self.items.remove(j);
                p.required = required;
                self.items.insert(j, p);
                assert(self.items@ =~= old(self)@.update(j as int, marked(old(self)@[j as int], required)));
                true
            },
            None => false,
        }
    }

    /// The data URL of the first photo named `name`.
    pub fn data_url_of(&self, name: &str) -> (r: Option<String>)
        ensures
            match index_of_key(self@, name@) {
                Some(j) => r matches Some(u) && u@ == self@[j].data_url@,
                None => r is None,
            },
    {
        match self.position(name) {
            Some(j) => {
                proof { lemma_index_of_key(self@, name@); }
                let u = self.items[j].data_url.clone();
                assert(u@ == self@[j as int].data_url@);
                Some(u)
            },
            None => None,
        }
    }
}

} // verus!
