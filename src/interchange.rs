//! What the interchange output holds: a leading record about the script,
//! then each character either as a bare id or as its full record.
use vstd::prelude::*;

use crate::character::{Character, CharacterView};
use crate::script::Script;
use crate::text::{string_of, strs, to_chars};

verus! {

/// The leading record of the interchange output.
#[derive(Debug)]
pub struct Meta {
    pub id: String,
    pub name: String,
    pub author: String,
    pub bootlegger: Option<Vec<String>>,
}

/// How a character appears in the interchange output.
#[derive(Debug)]
pub enum Entry {
    /// An official character without changes, named by its id alone.
    Reference(String),
    /// Any other character, in full.
    Record(Character),
}

pub enum EntryView {
    Reference(Seq<char>),
    Record(CharacterView),
}

impl View for Entry {
    type V = EntryView;

    open spec fn view(&self) -> EntryView {
        match self {
            Entry::Reference(id) => EntryView::Reference(id@),
            Entry::Record(c) => EntryView::Record(c@),
        }
    }
}

/// How the character `c` appears in the interchange output.
pub open spec fn entry_of(c: CharacterView) -> EntryView {
    if c.official && !c.patched {
        EntryView::Reference(c.id)
    } else {
        EntryView::Record(c)
    }
}

/// Whether a flag is left out of a record: only a set flag is written.
pub fn is_false(b: &bool) -> (r: bool)
    ensures
        r == !*b,
{
    !*b
}

/// Whether a night order is left out of a record: only a waking one is
/// written.
pub fn is_zero(n: &i64) -> (r: bool)
    ensures
        r == (*n == 0),
{
    *n == 0
}

impl Script {
    /// The leading record: the id `_meta`, the name, the author and the
    /// custom rules if there are any.
    pub fn meta(&self) -> (r: Meta)
        ensures
            r.id@ == "_meta"@,
            r.name@ == self.name@,
            r.author@ == self.author@,
            self.bootlegger_rules@.len() == 0 ==> r.bootlegger is None,
            self.bootlegger_rules@.len() > 0 ==> r.bootlegger is Some && strs(r.bootlegger->0@) == strs(
                self.bootlegger_rules@,
            ),
    {
        let bootlegger = if self.bootlegger_rules.is_empty() {
            None
        } else {
            let rules = self.bootlegger_rules.clone();
            assert(strs(rules@) =~= strs(self.bootlegger_rules@));
            Some(rules)
        };
        Meta {
            id: string_of(to_chars("_meta").as_slice()),
            name: self.name.clone(),
            author: self.author.clone(),
            bootlegger,
        }
    }

    /// The characters as they appear in the interchange output, in order.
    pub fn entries(&self) -> (r: Vec<Entry>)
        ensures
            r@.len() == self.characters@.len(),
            forall|i: int| 0 <= i < r@.len() ==> (#[trigger] r@[i])@ == entry_of(self@.characters[i]),
    {
        let mut out: Vec<Entry> = Vec::new();
        let mut i: usize = 0;
        while i < self.characters.len()
            invariant
                i <= self.characters@.len(),
                out@.len() == i,
                forall|k: int| 0 <= k < i ==> (#[trigger] out@[k])@ == entry_of(self@.characters[k]),
            decreases self.characters@.len() - i,
        {
            let c = &self.characters[i];
            let e = if c.official && !c.patched {
                Entry::Reference(c.id.clone())
            } else {
                Entry::Record(c.clone())
            };
            out.push(e);
            i = i + 1;
        }
        out
    }
}

} // verus!
