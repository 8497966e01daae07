//! Lookup tables keyed by character id.
use vstd::prelude::*;

use crate::character::{Character, CharacterView};
use crate::text::{
    chars_seqs, find_from, lemma_find_from_bounds, lines, same_chars, split_all, split_lines,
    split_spaces, string_of, strs, to_chars,
};

verus! {

/// The first index at or after `i` of a character with id `id`, or the length.
pub open spec fn find_id(t: Seq<CharacterView>, id: Seq<char>, i: int) -> int
    decreases t.len() - i,
{
    if i >= t.len() {
        t.len() as int
    } else if t[i].id == id {
        i
    } else {
        find_id(t, id, i + 1)
    }
}

pub proof fn lemma_find_id(t: Seq<CharacterView>, id: Seq<char>, i: int)
    requires
        0 <= i <= t.len(),
    ensures
        i <= find_id(t, id, i) <= t.len(),
        find_id(t, id, i) < t.len() ==> t[find_id(t, id, i)].id == id,
        forall|k: int| i <= k < find_id(t, id, i) ==> t[k].id != id,
    decreases t.len() - i,
{
    if i < t.len() && t[i].id != id {
        lemma_find_id(t, id, i + 1);
    }
}

/// The character of `t` with id `id`.
pub open spec fn lookup(t: Seq<CharacterView>, id: Seq<char>) -> Option<CharacterView> {
    let k = find_id(t, id, 0);
    if 0 <= k < t.len() {
        Some(t[k])
    } else {
        None
    }
}

/// No two characters of `t` share an id.
pub open spec fn ids_unique(t: Seq<CharacterView>) -> bool {
    forall|i: int, j: int| 0 <= i < j < t.len() ==> (#[trigger] t[i]).id != (#[trigger] t[j]).id
}

/// Characters by id. Inserting a character whose id is already present
/// replaces the earlier one, so ids are unique.
pub struct CharacterTable {
    entries: Vec<Character>,
}

impl View for CharacterTable {
    type V = Seq<CharacterView>;

    closed spec fn view(&self) -> Seq<CharacterView> {
        self.entries@.map_values(|c: Character| c@)
    }
}

impl CharacterTable {
    /// An empty table.
    pub fn new() -> (r: CharacterTable)
        ensures
            r@ == Seq::<CharacterView>::empty(),
            ids_unique(r@),
    {
        let r = CharacterTable { entries: Vec::new() };
        assert(r@ =~= Seq::<CharacterView>::empty());
        r
    }

    /// How many characters the table holds.
    pub fn len(&self) -> (r: usize)
        ensures
            r == self@.len(),
    {
        self.entries.len()
    }

    /// The index of the character with id `id`, if there is one.
    fn position(&self, id: &Vec<char>) -> (r: usize)
        ensures
            r == find_id(self@, id@, 0),
    {
        let mut i: usize = 0;
        while i < self.entries.len()
            invariant
                i <= self@.len(),
                find_id(self@, id@, 0) == find_id(self@, id@, i as int),
            decreases self@.len() - i,
        {
            let cid = to_chars(self.entries[i].id.as_str());
            if same_chars(&cid, id) {
                return i;
            }
            i = i + 1;
        }
        i
    }

    /// The character with id `id`.
    pub fn get(&self, id: &str) -> (r: Option<&Character>)
        ensures
            match lookup(self@, id@) {
                Some(c) => r is Some && r->0@ == c,
                None => r is None,
            },
    {
        let v = to_chars(id);
        self.get_chars(&v)
    }

    /// The character with id `id`.
    pub fn get_chars(&self, id: &Vec<char>) -> (r: Option<&Character>)
        ensures
            match lookup(self@, id@) {
                Some(c) => r is Some && r->0@ == c,
                None => r is None,
            },
    {
        let k = self.position(id);
        proof {
            lemma_find_id(self@, id@, 0);
        }
        if k < self.entries.len() {
            Some(&self.entries[k])
        } else {
            None
        }
    }

    /// Adds `c`, in place of the character with the same id if there is one.
    pub fn insert(&mut self, c: Character)
        ensures
            find_id(old(self)@, c@.id, 0) < old(self)@.len() ==> final(self)@ == old(self)@.update(
                find_id(old(self)@, c@.id, 0),
                c@,
            ),
            find_id(old(self)@, c@.id, 0) == old(self)@.len() ==> final(self)@ == old(self)@.push(
                c@,
            ),
            ids_unique(old(self)@) ==> ids_unique(final(self)@),
    {
        let id = to_chars(c.id.as_str());
        let k = self.position(&id);
        proof {
            lemma_find_id(self@, c@.id, 0);
        }
        let ghost cv = c@;
        let replace = k < self.entries.len();
        if replace {
            self.entries.set(k, c);
        } else {
            self.entries.push(c);
        }
        if replace {
            assert(self@ =~= old(self)@.update(k as int, cv));
        } else {
            assert(self@ =~= old(self)@.push(cv));
        }
    }
}

/// The first index at or after `i` of an entry with key `id`, or the length.
pub open spec fn find_key<V>(t: Seq<(Seq<char>, V)>, id: Seq<char>, i: int) -> int
    decreases t.len() - i,
{
    if i < 0 || i >= t.len() {
        t.len() as int
    } else if t[i].0 == id {
        i
    } else {
        find_key(t, id, i + 1)
    }
}

pub proof fn lemma_find_key<V>(t: Seq<(Seq<char>, V)>, id: Seq<char>, i: int)
    requires
        0 <= i <= t.len(),
    ensures
        i <= find_key(t, id, i) <= t.len(),
        find_key(t, id, i) < t.len() ==> t[find_key(t, id, i)].0 == id,
        forall|k: int| i <= k < find_key(t, id, i) ==> t[k].0 != id,
    decreases t.len() - i,
{
    if i < t.len() && t[i].0 != id {
        lemma_find_key(t, id, i + 1);
    }
}

/// No two entries of `t` share a key.
pub open spec fn keys_unique<V>(t: Seq<(Seq<char>, V)>) -> bool {
    forall|i: int, j: int| 0 <= i < j < t.len() ==> (#[trigger] t[i]).0 != (#[trigger] t[j]).0
}

/// The value of the entry with key `id`.
pub open spec fn lookup_key<V>(t: Seq<(Seq<char>, V)>, id: Seq<char>) -> Option<V> {
    let k = find_key(t, id, 0);
    if 0 <= k < t.len() {
        Some(t[k].1)
    } else {
        None
    }
}

/// Image locations by character id. Inserting an id that is already present
/// replaces its images.
pub struct ImageTable {
    entries: Vec<(String, Vec<String>)>,
}

impl View for ImageTable {
    type V = Seq<(Seq<char>, Seq<Seq<char>>)>;

    closed spec fn view(&self) -> Seq<(Seq<char>, Seq<Seq<char>>)> {
        self.entries@.map_values(|e: (String, Vec<String>)| (e.0@, strs(e.1@)))
    }
}

impl ImageTable {
    /// An empty table.
    pub fn new() -> (r: ImageTable)
        ensures
            r@ == Seq::<(Seq<char>, Seq<Seq<char>>)>::empty(),
            keys_unique(r@),
    {
        let r = ImageTable { entries: Vec::new() };
        assert(r@ =~= Seq::<(Seq<char>, Seq<Seq<char>>)>::empty());
        r
    }

    fn position(&self, id: &Vec<char>) -> (r: usize)
        ensures
            r == find_key(self@, id@, 0),
    {
        let mut i: usize = 0;
        while i < self.entries.len()
            invariant
                i <= self@.len(),
                find_key(self@, id@, 0) == find_key(self@, id@, i as int),
            decreases self@.len() - i,
        {
            let k = to_chars(self.entries[i].0.as_str());
            if same_chars(&k, id) {
                return i;
            }
            i = i + 1;
        }
        i
    }

    /// The images of the character with id `id`.
    pub fn get(&self, id: &str) -> (r: Option<&Vec<String>>)
        ensures
            match lookup_key(self@, id@) {
                Some(im) => r is Some && strs(r->0@) == im,
                None => r is None,
            },
    {
        let v = to_chars(id);
        self.get_chars(&v)
    }

    /// The images of the character with id `id`.
    pub fn get_chars(&self, id: &Vec<char>) -> (r: Option<&Vec<String>>)
        ensures
            match lookup_key(self@, id@) {
                Some(im) => r is Some && strs(r->0@) == im,
                None => r is None,
            },
    {
        let k = self.position(id);
        proof {
            lemma_find_key(self@, id@, 0);
        }
        if k < self.entries.len() {
            Some(&self.entries[k].1)
        } else {
            None
        }
    }

    /// Sets the images of `id`, in place of earlier ones.
    pub fn insert(&mut self, id: String, images: Vec<String>)
        ensures
            find_key(old(self)@, id@, 0) < old(self)@.len() ==> final(self)@ == old(self)@.update(
                find_key(old(self)@, id@, 0),
                (id@, strs(images@)),
            ),
            find_key(old(self)@, id@, 0) == old(self)@.len() ==> final(self)@ == old(self)@.push(
                (id@, strs(images@)),
            ),
            keys_unique(old(self)@) ==> keys_unique(final(self)@),
    {
        let key = to_chars(id.as_str());
        let k = self.position(&key);
        proof {
            lemma_find_key(self@, id@, 0);
        }
        let ghost e = (id@, strs(images@));
        if k < self.entries.len() {
            self.entries.set(k, (id, images));
            assert(self@ =~= old(self)@.update(k as int, e));
        } else {
            self.entries.push((id, images));
            assert(self@ =~= old(self)@.push(e));
        }
    }
}

/// `t` with `v` under key `k`, in place of an earlier entry with that key.
pub open spec fn key_insert<V>(t: Seq<(Seq<char>, V)>, k: Seq<char>, v: V) -> Seq<(Seq<char>, V)> {
    let f = find_key(t, k, 0);
    if f < t.len() {
        t.update(f, (k, v))
    } else {
        t.push((k, v))
    }
}

/// Where the game application serves the image asset `name`.
pub open spec fn asset_url(name: Seq<char>) -> Seq<char> {
    "https://botc.app/assets/"@ + name + ".webp"@
}

/// The image lines of `ls` from index `i` on, entered into `t`: each
/// non-empty line is an id and the names of its image assets, separated by
/// spaces.
pub open spec fn images_from(
    ls: Seq<Seq<char>>,
    i: int,
    t: Seq<(Seq<char>, Seq<Seq<char>>)>,
) -> Seq<(Seq<char>, Seq<Seq<char>>)>
    decreases ls.len() - i,
{
    if i < 0 || i >= ls.len() {
        t
    } else if ls[i].len() == 0 {
        images_from(ls, i + 1, t)
    } else {
        let parts = split_all(ls[i], ' ');
        let urls = parts.subrange(1, parts.len() as int).map_values(|x: Seq<char>| asset_url(x));
        images_from(ls, i + 1, key_insert(t, parts[0], urls))
    }
}

pub proof fn lemma_split_all_nonempty(s: Seq<char>, c: char)
    ensures
        split_all(s, c).len() >= 1,
    decreases s.len(),
{
    lemma_find_from_bounds(s, c, 0);
    if find_from(s, c, 0) < s.len() {
        lemma_split_all_nonempty(s.subrange(find_from(s, c, 0) + 1, s.len() as int), c);
    }
}

fn asset_url_exec(name: &Vec<char>) -> (r: String)
    ensures
        r@ == asset_url(name@),
{
    let mut r = string_of(to_chars("https://botc.app/assets/").as_slice());
    let n = string_of(name.as_slice());
    r.append(n.as_str());
    r.append(".webp");
    r
}

impl ImageTable {
    /// Reads an image list: each non-empty line holds an id and the names of
    /// its image assets, separated by spaces; a later line for the same id
    /// replaces an earlier one.
    pub fn from_source(source: &str) -> (r: ImageTable)
        ensures
            r@ == images_from(lines(source@), 0, Seq::empty()),
    {
        let text = to_chars(source);
        let ls = split_lines(&text);
        let ghost lv = chars_seqs(ls@);
        let mut t = ImageTable::new();
        let mut i: usize = 0;
        while i < ls.len()
            invariant
                i <= ls@.len(),
                lv == chars_seqs(ls@),
                lv == lines(source@),
                images_from(lv, 0, Seq::empty()) == images_from(lv, i as int, t@),
            decreases ls@.len() - i,
        {
            if ls[i].len() > 0 {
                let parts = split_spaces(&ls[i]);
                proof {
                    lemma_split_all_nonempty(lv[i as int], ' ');
                }
                let ghost pv = chars_seqs(parts@);
                let ghost urls = pv.subrange(1, pv.len() as int).map_values(|x: Seq<char>| asset_url(x));
                let mut images: Vec<String> = Vec::new();
                let mut j: usize = 1;
                while j < parts.len()
                    invariant
                        1 <= j <= parts@.len(),
                        pv == chars_seqs(parts@),
                        urls == pv.subrange(1, pv.len() as int).map_values(|x: Seq<char>| asset_url(x)),
                        strs(images@) == urls.subrange(0, j - 1),
                    decreases parts@.len() - j,
                {
                    let ghost before = strs(images@);
                    images.push(asset_url_exec(&parts[j]));
                    assert(strs(images@) =~= before.push(urls[j - 1]));
                    assert(urls.subrange(0, j as int) =~= urls.subrange(0, j - 1).push(urls[j - 1]));
                    j = j + 1;
                }
                assert(urls.subrange(0, urls.len() as int) =~= urls);
                let key = string_of(parts[0].as_slice());
                proof {
                    lemma_find_key(t@, key@, 0);
                }
                t.insert(key, images);
            }
            i = i + 1;
        }
        t
    }
}

/// `c` as an official character, with its images from `images` when they
/// are listed there.
pub open spec fn official_view(c: CharacterView, images: Seq<(Seq<char>, Seq<Seq<char>>)>) -> CharacterView {
    CharacterView {
        official: true,
        image: match lookup_key(images, c.id) {
            Some(im) => im,
            None => c.image,
        },
        ..c
    }
}

/// `t` with `c` in place of the character with the same id, or added.
pub open spec fn char_insert(t: Seq<CharacterView>, c: CharacterView) -> Seq<CharacterView> {
    let f = find_id(t, c.id, 0);
    if f < t.len() {
        t.update(f, c)
    } else {
        t.push(c)
    }
}

impl CharacterTable {
    /// Adds an official character, taking its images from `images` when they
    /// are listed there.
    pub fn add_official(&mut self, c: Character, images: &ImageTable)
        ensures
            final(self)@ == char_insert(old(self)@, official_view(c@, images@)),
            ids_unique(old(self)@) ==> ids_unique(final(self)@),
    {
        let mut c = c;
        let ghost c0 = c@;
        c.official = true;
        match images.get(c.id.as_str()) {
            Some(im) => {
                c.image = im.clone();
                assert(strs(c.image@) =~= strs(im@));
            },
            None => {},
        }
        assert(c@ == official_view(c0, images@));
        proof {
            lemma_find_id(self@, c@.id, 0);
        }
        self.insert(c);
    }
}

} // verus!
