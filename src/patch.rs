//! Patches: ability replacements and jinxes that a script may apply to its
//! characters, and their propagation through the jinxes that refer to a
//! renamed character.
use vstd::prelude::*;

use crate::character::{Jinx, JinxView, jinx_views};
use crate::error::{ParseError, ParseErrorView, SourceError};
use crate::table::{find_key, keys_unique, lemma_find_key, lookup_key};
use crate::text::{
    chars_seqs, is_word, lines, same_chars, split_lines, split_once, split_once_space, string_of,
    strs, to_chars,
};

verus! {

/// A patch for one character: an optional new ability, reasons for jinxes
/// with itself, and jinxes with other characters.
#[derive(Debug)]
pub struct Patch {
    pub replace: Option<String>,
    pub add: Vec<String>,
    pub jinxes: Vec<Jinx>,
}

pub struct PatchView {
    pub replace: Option<Seq<char>>,
    pub add: Seq<Seq<char>>,
    pub jinxes: Seq<JinxView>,
}

impl View for Patch {
    type V = PatchView;

    open spec fn view(&self) -> PatchView {
        PatchView {
            replace: match self.replace {
                Some(s) => Some(s@),
                None => None,
            },
            add: strs(self.add@),
            jinxes: jinx_views(self.jinxes@),
        }
    }
}

/// The lines of a patch unit from index `i` on, read into `p`. A line
/// without a space is passed over.
pub open spec fn parse_patch_from(ls: Seq<Seq<char>>, i: int, p: PatchView) -> Result<PatchView, ParseErrorView>
    decreases ls.len() - i,
{
    if i < 0 || i >= ls.len() {
        Ok(p)
    } else {
        match split_once(ls[i], ' ') {
            None => parse_patch_from(ls, i + 1, p),
            Some((k, v)) => if k == "add"@ {
                parse_patch_from(ls, i + 1, PatchView { add: p.add.push(v), ..p })
            } else if k == "replace"@ {
                parse_patch_from(ls, i + 1, PatchView { replace: Some(v), ..p })
            } else if k == "jinx"@ {
                match split_once(v, ' ') {
                    Some((id, reason)) => parse_patch_from(
                        ls,
                        i + 1,
                        PatchView { jinxes: p.jinxes.push(JinxView { id, reason }), ..p },
                    ),
                    None => Err(ParseErrorView::InvalidJinx { line: (i + 1) as usize }),
                }
            } else {
                Err(ParseErrorView::InvalidKey { line: (i + 1) as usize })
            },
        }
    }
}

/// The patch that a unit of `add`, `replace` and `jinx` lines describes.
pub open spec fn parse_patch(text: Seq<char>) -> Result<PatchView, ParseErrorView> {
    parse_patch_from(
        lines(text),
        0,
        PatchView { replace: None, add: Seq::empty(), jinxes: Seq::empty() },
    )
}

/// Patches by character id.
pub struct PatchTable {
    entries: Vec<(String, Patch)>,
}

impl View for PatchTable {
    type V = Seq<(Seq<char>, PatchView)>;

    closed spec fn view(&self) -> Seq<(Seq<char>, PatchView)> {
        self.entries@.map_values(|e: (String, Patch)| (e.0@, e.1@))
    }
}

impl PatchTable {
    /// An empty table.
    pub fn new() -> (r: PatchTable)
        ensures
            r@ == Seq::<(Seq<char>, PatchView)>::empty(),
            keys_unique(r@),
    {
        let r = PatchTable { entries: Vec::new() };
        assert(r@ =~= Seq::<(Seq<char>, PatchView)>::empty());
        r
    }

    fn position(&self, id: &Vec<char>) -> (r: usize)
        ensures
            r == find_key(self@, id@, 0),
    {
        let mut i: usize = 0;
        while i < self.entries.len()
            invariant
                i <= self@.len(),
                find_key(self@, id@, 0) == find_key(self@, id@, i as int),
            decreases self@.len() - i,
        {
            let k = to_chars(self.entries[i].0.as_str());
            if same_chars(&k, id) {
                return i;
            }
            i = i + 1;
        }
        i
    }

    /// The patch of the character with id `id`.
    pub fn get_chars(&self, id: &Vec<char>) -> (r: Option<&Patch>)
        ensures
            match lookup_key(self@, id@) {
                Some(p) => r is Some && r->0@ == p,
                None => r is None,
            },
    {
        let k = self.position(id);
        proof {
            lemma_find_key(self@, id@, 0);
        }
        if k < self.entries.len() {
            Some(&self.entries[k].1)
        } else {
            None
        }
    }

    /// Sets the patch of `id`, in place of an earlier one.
    pub fn insert(&mut self, id: String, patch: Patch)
        ensures
            find_key(old(self)@, id@, 0) < old(self)@.len() ==> final(self)@ == old(self)@.update(
                find_key(old(self)@, id@, 0),
                (id@, patch@),
            ),
            find_key(old(self)@, id@, 0) == old(self)@.len() ==> final(self)@ == old(self)@.push(
                (id@, patch@),
            ),
            keys_unique(old(self)@) ==> keys_unique(final(self)@),
    {
        let key = to_chars(id.as_str());
        let k = self.position(&key);
        proof {
            lemma_find_key(self@, id@, 0);
        }
        let ghost e = (id@, patch@);
        if k < self.entries.len() {
            self.entries.set(k, (id, patch));
            assert(self@ =~= old(self)@.update(k as int, e));
        } else {
            self.entries.push((id, patch));
            assert(self@ =~= old(self)@.push(e));
        }
    }
}

impl Patch {
    /// Reads a patch unit: `add reason`, `replace ability` and
    /// `jinx other_id reason` lines; an error names the unit by `unit`.
    pub fn from_source(unit: &str, source: &str) -> (r: Result<Patch, SourceError>)
        ensures
            match parse_patch(source@) {
                Ok(p) => r is Ok && r->Ok_0@ == p,
                Err(e) => r is Err && r->Err_0.unit@ == unit@ && r->Err_0.error@ == e,
            },
    {
        match Patch::read_unit(source) {
            Ok(p) => Ok(p),
            Err(e) => Err(SourceError::new(unit, e)),
        }
    }

    fn read_unit(source: &str) -> (r: Result<Patch, ParseError>)
        ensures
            match parse_patch(source@) {
                Ok(p) => r is Ok && r->Ok_0@ == p,
                Err(e) => r is Err && r->Err_0@ == e,
            },
    {
        let text = to_chars(source);
        let ls = split_lines(&text);
        let ghost lv = chars_seqs(ls@);
        let mut patch = Patch { replace: None, add: Vec::new(), jinxes: Vec::new() };
        assert(patch@ == PatchView { replace: None, add: Seq::empty(), jinxes: Seq::empty() }) by {
            assert(patch@.add =~= Seq::<Seq<char>>::empty());
            assert(patch@.jinxes =~= Seq::<JinxView>::empty());
        }
        let mut i: usize = 0;
        while i < ls.len()
            invariant
                i <= ls@.len(),
                lv == chars_seqs(ls@),
                lv == lines(source@),
                parse_patch(source@) == parse_patch_from(lv, i as int, patch@),
            decreases ls@.len() - i,
        {
            match split_once_space(&ls[i]) {
                None => {},
                Some((k, v)) => {
                    if is_word(&k, "add") {
                        let ghost before = patch@.add;
                        patch.add.push(string_of(v.as_slice()));
                        assert(patch@.add == before.push(v@));
                    } else if is_word(&k, "replace") {
                        patch.replace = Some(string_of(v.as_slice()));
                    } else if is_word(&k, "jinx") {
                        match split_once_space(&v) {
                            Some((id, reason)) => {
                                let ghost before = patch@.jinxes;
                                patch.jinxes.push(
                                    Jinx {
                                        id: string_of(id.as_slice()),
                                        reason: string_of(reason.as_slice()),
                                    },
                                );
                                assert(patch@.jinxes == before.push(
                                    JinxView { id: id@, reason: reason@ },
                                ));
                            },
                            None => {
                                return Err(ParseError::InvalidJinx { line: i + 1 });
                            },
                        }
                    } else {
                        return Err(ParseError::InvalidKey { line: i + 1 });
                    }
                },
            }
            i = i + 1;
        }
        Ok(patch)
    }
}

} // verus!
