//! The patch engine: patches that have an effect rename their character and
//! attach jinxes; every character whose jinxes refer to a renamed character
//! is then renamed too, pass after pass until a pass renames nothing.
use vstd::prelude::*;

use crate::character::{Character, CharacterView, Jinx, JinxView, ids_of, jinx_views};
use crate::patch::{Patch, PatchTable, PatchView};
use crate::script::{Script, ScriptView};
use crate::table::{find_key, lemma_find_key, lookup_key, ImageTable};
use crate::text::{chars_seqs, has_prefix, same_chars, string_of, strs, to_chars};

verus! {

/// The id that a patched character takes.
pub open spec fn prefixed(id: Seq<char>) -> Seq<char> {
    "patched_"@ + id
}

/// The reason of the jinx that marks a replaced ability.
pub open spec fn modified_notice() -> Seq<char> {
    "This character has a modified ability."@
}

/// Whether some character of `chars` has a patch in `pt`.
pub open spec fn has_patch(chars: Seq<CharacterView>, pt: Seq<(Seq<char>, PatchView)>) -> bool {
    exists|i: int| 0 <= i < chars.len() && lookup_key(pt, (#[trigger] chars[i]).id) is Some
}

/// The jinxes of `js` whose target is among `ids`, in order.
pub open spec fn present_jinxes(js: Seq<JinxView>, ids: Seq<Seq<char>>) -> Seq<JinxView>
    decreases js.len(),
{
    if js.len() == 0 {
        js
    } else {
        let r = present_jinxes(js.drop_last(), ids);
        if ids.contains(js.last().id) {
            r.push(js.last())
        } else {
            r
        }
    }
}

/// A patch has an effect when it replaces the ability, adds a reason, or has
/// a jinx whose target is among `ids`.
pub open spec fn effective(p: PatchView, ids: Seq<Seq<char>>) -> bool {
    p.replace is Some || p.add.len() > 0 || present_jinxes(p.jinxes, ids).len() > 0
}

/// Jinxes of a character with itself, one for each reason.
pub open spec fn self_jinxes(adds: Seq<Seq<char>>, id: Seq<char>) -> Seq<JinxView> {
    adds.map_values(|r: Seq<char>| JinxView { id, reason: r })
}

/// `c` with the patch `p` applied, where `ids` are the ids of the script.
pub open spec fn patch_one(c: CharacterView, p: PatchView, ids: Seq<Seq<char>>) -> CharacterView {
    let nid = prefixed(c.id);
    let js = c.jinxes + present_jinxes(p.jinxes, ids) + self_jinxes(p.add, nid);
    match p.replace {
        Some(a) => CharacterView {
            id: nid,
            patched: true,
            ability: a,
            jinxes: js.push(JinxView { id: nid, reason: modified_notice() }),
            ..c
        },
        None => CharacterView { id: nid, patched: true, jinxes: js, ..c },
    }
}

/// The characters and the ids, as they were before renaming, of the
/// characters renamed so far.
pub struct PatchState {
    pub chars: Seq<CharacterView>,
    pub renamed: Seq<Seq<char>>,
}

/// Applies, from index `i` on, each patch that has an effect.
pub open spec fn direct_from(
    chars: Seq<CharacterView>,
    i: int,
    pt: Seq<(Seq<char>, PatchView)>,
    ids: Seq<Seq<char>>,
    renamed: Seq<Seq<char>>,
) -> PatchState
    decreases chars.len() - i,
{
    if i < 0 || i >= chars.len() {
        PatchState { chars, renamed }
    } else {
        match lookup_key(pt, chars[i].id) {
            Some(p) => if effective(p, ids) {
                direct_from(
                    chars.update(i, patch_one(chars[i], p, ids)),
                    i + 1,
                    pt,
                    ids,
                    renamed.push(chars[i].id),
                )
            } else {
                direct_from(chars, i + 1, pt, ids, renamed)
            },
            None => direct_from(chars, i + 1, pt, ids, renamed),
        }
    }
}

/// Whether a jinx of `js` targets a renamed id.
pub open spec fn refers_to(js: Seq<JinxView>, renamed: Seq<Seq<char>>) -> bool {
    exists|k: int| 0 <= k < js.len() && renamed.contains((#[trigger] js[k]).id)
}

/// `js` with each target that is a renamed id given its new name.
pub open spec fn retarget(js: Seq<JinxView>, renamed: Seq<Seq<char>>) -> Seq<JinxView> {
    js.map_values(
        |j: JinxView|
            if renamed.contains(j.id) {
                JinxView { id: prefixed(j.id), reason: j.reason }
            } else {
                j
            },
    )
}

/// The new images of a character that is renamed by propagation.
pub open spec fn refreshed_image(c: CharacterView, images: Seq<(Seq<char>, Seq<Seq<char>>)>) -> Seq<
    Seq<char>,
> {
    match lookup_key(images, c.id) {
        Some(im) => im,
        None => c.image,
    }
}

/// One character's step of propagation: the new character, the renamed ids
/// and whether it was renamed.
pub open spec fn propagate_one(
    c: CharacterView,
    renamed: Seq<Seq<char>>,
    images: Seq<(Seq<char>, Seq<Seq<char>>)>,
) -> (CharacterView, Seq<Seq<char>>, bool) {
    if !refers_to(c.jinxes, renamed) {
        (c, renamed, false)
    } else if !c.patched {
        let r1 = renamed.push(c.id);
        (
            CharacterView {
                id: prefixed(c.id),
                patched: true,
                image: refreshed_image(c, images),
                jinxes: retarget(c.jinxes, r1),
                ..c
            },
            r1,
            true,
        )
    } else {
        (CharacterView { jinxes: retarget(c.jinxes, renamed), ..c }, renamed, false)
    }
}

/// A pass of propagation over the characters from index `i` on.
pub open spec fn propagate_pass(
    chars: Seq<CharacterView>,
    i: int,
    renamed: Seq<Seq<char>>,
    images: Seq<(Seq<char>, Seq<Seq<char>>)>,
    changed: bool,
) -> (Seq<CharacterView>, Seq<Seq<char>>, bool)
    decreases chars.len() - i,
{
    if i < 0 || i >= chars.len() {
        (chars, renamed, changed)
    } else {
        let (c, r, ch) = propagate_one(chars[i], renamed, images);
        propagate_pass(chars.update(i, c), i + 1, r, images, changed || ch)
    }
}

/// How many characters of `chars` are not marked as patched.
pub open spec fn unpatched(chars: Seq<CharacterView>) -> nat
    decreases chars.len(),
{
    if chars.len() == 0 {
        0
    } else {
        unpatched(chars.drop_last()) + if chars.last().patched {
            0nat
        } else {
            1nat
        }
    }
}

pub proof fn lemma_pass_monotone(
    chars: Seq<CharacterView>,
    i: int,
    renamed: Seq<Seq<char>>,
    images: Seq<(Seq<char>, Seq<Seq<char>>)>,
    changed: bool,
)
    requires
        0 <= i,
    ensures
        ({
            let (c2, _r2, ch) = propagate_pass(chars, i, renamed, images, changed);
            &&& c2.len() == chars.len()
            &&& forall|k: int| 0 <= k < chars.len() && chars[k].patched ==> (#[trigger] c2[k]).patched
            &&& ch ==> changed || exists|k: int|
                0 <= k < chars.len() && !chars[k].patched && (#[trigger] c2[k]).patched
        }),
    decreases chars.len() - i,
{
    if i < chars.len() {
        let (c, r, ch) = propagate_one(chars[i], renamed, images);
        let next = chars.update(i, c);
        lemma_pass_monotone(next, i + 1, r, images, changed || ch);
        let (c2, _r2, ch2) = propagate_pass(next, i + 1, r, images, changed || ch);
        assert forall|k: int| 0 <= k < chars.len() && chars[k].patched implies (#[trigger] c2[k]).patched by {
            assert(next[k].patched);
        }
        if ch2 && !changed {
            if ch {
                assert(!chars[i].patched && c2[i].patched);
            } else {
                let k = choose|k: int| 0 <= k < next.len() && !next[k].patched && (#[trigger] c2[k]).patched;
                assert(!chars[k].patched);
            }
        }
    }
}

pub proof fn lemma_unpatched_decreases(a: Seq<CharacterView>, b: Seq<CharacterView>)
    requires
        a.len() == b.len(),
        forall|k: int| 0 <= k < a.len() && a[k].patched ==> (#[trigger] b[k]).patched,
    ensures
        unpatched(b) <= unpatched(a),
        (exists|k: int| 0 <= k < a.len() && !a[k].patched && (#[trigger] b[k]).patched) ==> unpatched(b)
            < unpatched(a),
    decreases a.len(),
{
    if a.len() > 0 {
        let (a1, b1) = (a.drop_last(), b.drop_last());
        assert forall|k: int| 0 <= k < a1.len() && a1[k].patched implies (#[trigger] b1[k]).patched by {
            assert(a[k].patched);
        }
        lemma_unpatched_decreases(a1, b1);
        if exists|k: int| 0 <= k < a.len() && !a[k].patched && (#[trigger] b[k]).patched {
            let k = choose|k: int| 0 <= k < a.len() && !a[k].patched && (#[trigger] b[k]).patched;
            if k < a.len() - 1 {
                assert(!a1[k].patched && b1[k].patched);
            }
        }
    }
}

/// Passes of propagation until one renames nothing.
pub open spec fn propagate(
    chars: Seq<CharacterView>,
    renamed: Seq<Seq<char>>,
    images: Seq<(Seq<char>, Seq<Seq<char>>)>,
) -> Seq<CharacterView>
    decreases unpatched(chars),
{
    let (c2, r2, ch) = propagate_pass(chars, 0, renamed, images, false);
    if ch {
        proof {
            lemma_pass_monotone(chars, 0, renamed, images, false);
            lemma_unpatched_decreases(chars, c2);
        }
        propagate(c2, r2, images)
    } else {
        c2
    }
}

/// How many passes propagation makes: it stops after the first pass that
/// renames nothing.
pub open spec fn pass_count(
    chars: Seq<CharacterView>,
    renamed: Seq<Seq<char>>,
    images: Seq<(Seq<char>, Seq<Seq<char>>)>,
) -> nat
    decreases unpatched(chars),
{
    let (c2, r2, ch) = propagate_pass(chars, 0, renamed, images, false);
    if ch {
        proof {
            lemma_pass_monotone(chars, 0, renamed, images, false);
            lemma_unpatched_decreases(chars, c2);
        }
        1 + pass_count(c2, r2, images)
    } else {
        1
    }
}

/// How many passes of propagation applying the patches makes; none when no
/// character has a patch.
pub open spec fn patch_passes(
    chars: Seq<CharacterView>,
    pt: Seq<(Seq<char>, PatchView)>,
    images: Seq<(Seq<char>, Seq<Seq<char>>)>,
) -> nat {
    if !has_patch(chars, pt) {
        0
    } else {
        let st = direct_from(chars, 0, pt, crate::character::ids_of(chars), Seq::empty());
        pass_count(st.chars, st.renamed, images)
    }
}

/// The characters of a script after its patches are applied: unchanged if
/// none of them has a patch; otherwise the patches that have an effect are
/// applied and the renaming propagated.
pub open spec fn apply_patches_spec(
    chars: Seq<CharacterView>,
    pt: Seq<(Seq<char>, PatchView)>,
    images: Seq<(Seq<char>, Seq<Seq<char>>)>,
) -> Seq<CharacterView> {
    if !has_patch(chars, pt) {
        chars
    } else {
        let st = direct_from(chars, 0, pt, crate::character::ids_of(chars), Seq::empty());
        propagate(st.chars, st.renamed, images)
    }
}

/// Whether `x` is one of `v`.
pub fn contains_chars(v: &Vec<Vec<char>>, x: &Vec<char>) -> (r: bool)
    ensures
        r == chars_seqs(v@).contains(x@),
{
    let ghost s = chars_seqs(v@);
    let mut i: usize = 0;
    while i < v.len()
        invariant
            i <= v@.len(),
            s == chars_seqs(v@),
            forall|k: int| 0 <= k < i ==> s[k] != x@,
        decreases v@.len() - i,
    {
        if same_chars(&v[i], x) {
            assert(s[i as int] == x@);
            return true;
        }
        i = i + 1;
    }
    false
}

/// The string `"patched_"` followed by `id`.
fn prefixed_exec(id: &String) -> (r: String)
    ensures
        r@ == prefixed(id@),
{
    let mut r = string_of(to_chars("patched_").as_slice());
    r.append(id.as_str());
    r
}

/// The jinxes of `js` whose target is among `ids`, in order.
fn present_jinxes_exec(js: &Vec<Jinx>, ids: &Vec<Vec<char>>) -> (r: Vec<Jinx>)
    ensures
        jinx_views(r@) == present_jinxes(jinx_views(js@), chars_seqs(ids@)),
{
    let mut out: Vec<Jinx> = Vec::new();
    let mut i: usize = 0;
    assert(jinx_views(js@).subrange(0, 0) =~= Seq::<JinxView>::empty());
    assert(jinx_views(out@) =~= Seq::<JinxView>::empty());
    while i < js.len()
        invariant
            i <= js@.len(),
            jinx_views(out@) == present_jinxes(jinx_views(js@).subrange(0, i as int), chars_seqs(ids@)),
        decreases js@.len() - i,
    {
        let ghost pre = jinx_views(js@).subrange(0, i + 1);
        assert(pre.drop_last() =~= jinx_views(js@).subrange(0, i as int));
        let target = to_chars(js[i].id.as_str());
        if contains_chars(ids, &target) {
            let ghost before = jinx_views(out@);
            out.push(js[i].clone());
            assert(jinx_views(out@) =~= before.push(js@[i as int]@));
        }
        i = i + 1;
    }
    assert(jinx_views(js@).subrange(0, js@.len() as int) =~= jinx_views(js@));
    out
}

/// Whether a jinx of `js` targets one of `renamed`.
fn refers_to_exec(js: &Vec<Jinx>, renamed: &Vec<Vec<char>>) -> (r: bool)
    ensures
        r == refers_to(jinx_views(js@), chars_seqs(renamed@)),
{
    let mut i: usize = 0;
    while i < js.len()
        invariant
            i <= js@.len(),
            forall|k: int| 0 <= k < i ==> !chars_seqs(renamed@).contains(jinx_views(js@)[k].id),
        decreases js@.len() - i,
    {
        let target = to_chars(js[i].id.as_str());
        if contains_chars(renamed, &target) {
            assert(chars_seqs(renamed@).contains(jinx_views(js@)[i as int].id));
            return true;
        }
        i = i + 1;
    }
    false
}

/// `js` with each target among `renamed` given its new name.
fn retarget_exec(js: &Vec<Jinx>, renamed: &Vec<Vec<char>>) -> (r: Vec<Jinx>)
    ensures
        jinx_views(r@) == retarget(jinx_views(js@), chars_seqs(renamed@)),
{
    let mut out: Vec<Jinx> = Vec::new();
    let mut i: usize = 0;
    while i < js.len()
        invariant
            i <= js@.len(),
            jinx_views(out@) == retarget(jinx_views(js@).subrange(0, i as int), chars_seqs(renamed@)),
        decreases js@.len() - i,
    {
        let target = to_chars(js[i].id.as_str());
        let j = if contains_chars(renamed, &target) {
            Jinx { id: prefixed_exec(&js[i].id), reason: js[i].reason.clone() }
        } else {
            js[i].clone()
        };
        let ghost before = jinx_views(out@);
        out.push(j);
        assert(jinx_views(out@) =~= before.push(j@));
        assert(retarget(jinx_views(js@).subrange(0, i + 1), chars_seqs(renamed@)) =~= retarget(
            jinx_views(js@).subrange(0, i as int),
            chars_seqs(renamed@),
        ).push(j@));
        i = i + 1;
    }
    assert(jinx_views(js@).subrange(0, js@.len() as int) =~= jinx_views(js@));
    out
}

/// Whether the patch `p` has an effect on a script with the ids `ids`.
fn effective_exec(p: &Patch, ids: &Vec<Vec<char>>) -> (r: bool)
    ensures
        r == effective(p@, chars_seqs(ids@)),
{
    p.replace.is_some() || p.add.len() > 0 || present_jinxes_exec(&p.jinxes, ids).len() > 0
}

/// Appends the jinxes of `src` to `dst`.
fn push_jinxes(dst: &mut Vec<Jinx>, src: Vec<Jinx>)
    ensures
        jinx_views(final(dst)@) == jinx_views(old(dst)@) + jinx_views(src@),
{
    let mut i: usize = 0;
    while i < src.len()
        invariant
            i <= src@.len(),
            jinx_views(dst@) == jinx_views(old(dst)@) + jinx_views(src@).subrange(0, i as int),
        decreases src@.len() - i,
    {
        let ghost before = jinx_views(dst@);
        dst.push(src[i].clone());
        assert(jinx_views(dst@) =~= before.push(src@[i as int]@));
        assert(jinx_views(src@).subrange(0, i + 1) =~= jinx_views(src@).subrange(0, i as int).push(
            src@[i as int]@,
        ));
        i = i + 1;
    }
    assert(jinx_views(src@).subrange(0, src@.len() as int) =~= jinx_views(src@));
}

/// `c` with the patch `p` applied, where `ids` are the ids of the script.
fn patch_one_exec(c: Character, p: &Patch, ids: &Vec<Vec<char>>) -> (r: Character)
    ensures
        r@ == patch_one(c@, p@, chars_seqs(ids@)),
{
    let mut c = c;
    let ghost c0 = c@;
    let nid = prefixed_exec(&c.id);
    push_jinxes(&mut c.jinxes, present_jinxes_exec(&p.jinxes, ids));
    let mut own: Vec<Jinx> = Vec::new();
    let mut i: usize = 0;
    while i < p.add.len()
        invariant
            i <= p.add@.len(),
            nid@ == prefixed(c0.id),
            jinx_views(own@) == self_jinxes(strs(p.add@).subrange(0, i as int), nid@),
        decreases p.add@.len() - i,
    {
        let ghost before = jinx_views(own@);
        let j = Jinx { id: nid.clone(), reason: p.add[i].clone() };
        own.push(j);
        assert(jinx_views(own@) =~= before.push(j@));
        assert(self_jinxes(strs(p.add@).subrange(0, i + 1), nid@) =~= self_jinxes(
            strs(p.add@).subrange(0, i as int),
            nid@,
        ).push(j@));
        i = i + 1;
    }
    assert(strs(p.add@).subrange(0, p.add@.len() as int) =~= strs(p.add@));
    push_jinxes(&mut c.jinxes, own);
    match &p.replace {
        Some(a) => {
            c.ability = a.clone();
            let ghost before = jinx_views(c.jinxes@);
            let j = Jinx {
                id: nid.clone(),
                reason: string_of(to_chars("This character has a modified ability.").as_slice()),
            };
            c.jinxes.push(j);
            assert(jinx_views(c.jinxes@) =~= before.push(j@));
        },
        None => {},
    }
    c.id = nid;
    c.patched = true;
    assert(c@.jinxes =~= patch_one(c0, p@, chars_seqs(ids@)).jinxes);
    c
}

/// One character's step of propagation; tells whether it was renamed.
fn propagate_one_exec(c: Character, renamed: &mut Vec<Vec<char>>, images: &ImageTable) -> (r: (
    Character,
    bool,
))
    ensures
        propagate_one(c@, chars_seqs(old(renamed)@), images@) == (r.0@, chars_seqs(final(renamed)@), r.1),
{
    let mut c = c;
    let ghost c0 = c@;
    if !refers_to_exec(&c.jinxes, renamed) {
        return (c, false);
    }
    let mut changed = false;
    if !c.patched {
        let id = to_chars(c.id.as_str());
        let ghost before = chars_seqs(renamed@);
        renamed.push(id);
        assert(chars_seqs(renamed@) =~= before.push(c0.id));
        c.patched = true;
        changed = true;
        match images.get(c.id.as_str()) {
            Some(im) => {
                c.image = im.clone();
                assert(strs(c.image@) =~= strs(im@));
            },
            None => {},
        }
        c.id = prefixed_exec(&c.id);
    }
    c.jinxes = retarget_exec(&c.jinxes, renamed);
    (c, changed)
}

impl Script {
    /// Applies the patches of `patches` to the script's characters, renaming
    /// each patched character and, until nothing more changes, each character
    /// whose jinxes refer to a renamed one; a character renamed that way takes
    /// its images from `image_list` when they are listed there. Nothing
    /// changes when no character of the script has a patch.
    pub fn apply_patches(&mut self, patches: &PatchTable, image_list: &ImageTable)
        ensures
            final(self)@ == (ScriptView {
                characters: apply_patches_spec(old(self)@.characters, patches@, image_list@),
                ..old(self)@
            }),
    {
        let ghost orig = self@.characters;
        let mut any = false;
        let mut i: usize = 0;
        while i < self.characters.len()
            invariant
                i <= self.characters@.len(),
                self@ == old(self)@,
                orig == self@.characters,
                !any ==> forall|k: int| 0 <= k < i ==> lookup_key(patches@, (#[trigger] orig[k]).id) is None,
                any ==> has_patch(orig, patches@),
            decreases self.characters@.len() - i,
        {
            let id = to_chars(self.characters[i].id.as_str());
            if patches.get_chars(&id).is_some() {
                assert(orig[i as int].id == id@);
                any = true;
            }
            i = i + 1;
        }
        if !any {
            return;
        }
        let mut ids: Vec<Vec<char>> = Vec::new();
        let mut i: usize = 0;
        while i < self.characters.len()
            invariant
                i <= self.characters@.len(),
                self@ == old(self)@,
                orig == self@.characters,
                chars_seqs(ids@) == ids_of(orig).subrange(0, i as int),
            decreases self.characters@.len() - i,
        {
            let ghost before = chars_seqs(ids@);
            ids.push(to_chars(self.characters[i].id.as_str()));
            assert(chars_seqs(ids@) =~= before.push(orig[i as int].id));
            assert(ids_of(orig).subrange(0, i + 1) =~= ids_of(orig).subrange(0, i as int).push(
                orig[i as int].id,
            ));
            i = i + 1;
        }
        assert(ids_of(orig).subrange(0, orig.len() as int) =~= ids_of(orig));
        let ghost idv = chars_seqs(ids@);
        let ghost direct = direct_from(orig, 0, patches@, idv, Seq::empty());
        let mut renamed: Vec<Vec<char>> = Vec::new();
        assert(chars_seqs(renamed@) =~= Seq::<Seq<char>>::empty());
        let mut i: usize = 0;
        while i < self.characters.len()
            invariant
                i <= self.characters@.len(),
                self.characters@.len() == orig.len(),
                self@ == (ScriptView { characters: self@.characters, ..old(self)@ }),
                idv == chars_seqs(ids@),
                direct == direct_from(self@.characters, i as int, patches@, idv, chars_seqs(renamed@)),
            decreases self.characters@.len() - i,
        {
            let id = to_chars(self.characters[i].id.as_str());
            match patches.get_chars(&id) {
                Some(p) => {
                    if effective_exec(p, &ids) {
                        let c = self.characters[i].clone();
                        let c2 = patch_one_exec(c, p, &ids);
                        let ghost before = chars_seqs(renamed@);
                        renamed.push(id);
                        assert(chars_seqs(renamed@) =~= before.push(self@.characters[i as int].id));
                        let ghost cs = self@.characters;
                        self.characters.set(i, c2);
                        assert(self@.characters =~= cs.update(i as int, c2@));
                    }
                },
                None => {},
            }
            i = i + 1;
        }
        let ghost target = propagate(direct.chars, direct.renamed, image_list@);
        loop
            invariant
                self@ == (ScriptView { characters: self@.characters, ..old(self)@ }),
                orig == old(self)@.characters,
                target == apply_patches_spec(orig, patches@, image_list@),
                target == propagate(self@.characters, chars_seqs(renamed@), image_list@),
            decreases unpatched(self@.characters),
        {
            let ghost start = self@.characters;
            let ghost start_renamed = chars_seqs(renamed@);
            let mut changed = false;
            let mut i: usize = 0;
            while i < self.characters.len()
                invariant
                    i <= self.characters@.len(),
                    self.characters@.len() == start.len(),
                    orig == old(self)@.characters,
                target == apply_patches_spec(orig, patches@, image_list@),
                    target == propagate(start, start_renamed, image_list@),
                    self@ == (ScriptView { characters: self@.characters, ..old(self)@ }),
                    propagate_pass(start, 0, start_renamed, image_list@, false) == propagate_pass(
                        self@.characters,
                        i as int,
                        chars_seqs(renamed@),
                        image_list@,
                        changed,
                    ),
                decreases self.characters@.len() - i,
            {
                let c = self.characters[i].clone();
                let (c2, ch) = propagate_one_exec(c, &mut renamed, image_list);
                let ghost cs = self@.characters;
                self.characters.set(i, c2);
                assert(self@.characters =~= cs.update(i as int, c2@));
                changed = changed || ch;
                i = i + 1;
            }
            proof {
                lemma_pass_monotone(start, 0, start_renamed, image_list@, false);
                lemma_unpatched_decreases(start, self@.characters);
            }
            if !changed {
                assert(propagate_pass(start, 0, start_renamed, image_list@, false) == (
                    self@.characters,
                    chars_seqs(renamed@),
                    false,
                ));
                assert(target == self@.characters);
                return;
            }
        }
    }
}

/// Propagation never renames a character that is already marked patched.
pub proof fn lemma_propagate_keeps_patched(
    chars: Seq<CharacterView>,
    renamed: Seq<Seq<char>>,
    images: Seq<(Seq<char>, Seq<Seq<char>>)>,
)
    ensures
        propagate(chars, renamed, images).len() == chars.len(),
        forall|k: int|
            0 <= k < chars.len() && (#[trigger] chars[k]).patched ==> propagate(
                chars,
                renamed,
                images,
            )[k].id == chars[k].id && propagate(chars, renamed, images)[k].patched,
    decreases unpatched(chars),
{
    let (c2, r2, ch) = propagate_pass(chars, 0, renamed, images, false);
    lemma_pass_keeps_patched(chars, 0, renamed, images, false);
    if ch {
        lemma_pass_monotone(chars, 0, renamed, images, false);
        lemma_unpatched_decreases(chars, c2);
        lemma_propagate_keeps_patched(c2, r2, images);
    }
}

pub proof fn lemma_pass_keeps_patched(
    chars: Seq<CharacterView>,
    i: int,
    renamed: Seq<Seq<char>>,
    images: Seq<(Seq<char>, Seq<Seq<char>>)>,
    changed: bool,
)
    requires
        0 <= i,
    ensures
        propagate_pass(chars, i, renamed, images, changed).0.len() == chars.len(),
        forall|k: int|
            0 <= k < chars.len() && (#[trigger] chars[k]).patched ==> propagate_pass(
                chars,
                i,
                renamed,
                images,
                changed,
            ).0[k].id == chars[k].id && propagate_pass(chars, i, renamed, images, changed).0[k].patched,
    decreases chars.len() - i,
{
    if i < chars.len() {
        let (c, r, ch) = propagate_one(chars[i], renamed, images);
        let next = chars.update(i, c);
        lemma_pass_keeps_patched(next, i + 1, r, images, changed || ch);
        assert forall|k: int| 0 <= k < chars.len() && (#[trigger] chars[k]).patched implies next[k].id
            == chars[k].id && next[k].patched by {}
    }
}

/// Two characters that jinx each other, of which only the first has a patch
/// (one with an effect): applying the patches terminates and renames each of
/// them exactly once.
pub proof fn lemma_jinx_cycle_renames_both(
    a: CharacterView,
    b: CharacterView,
    pt: Seq<(Seq<char>, PatchView)>,
    images: Seq<(Seq<char>, Seq<Seq<char>>)>,
)
    requires
        refers_to(a.jinxes, seq![b.id]),
        refers_to(b.jinxes, seq![a.id]),
        lookup_key(pt, a.id) is Some,
        effective(lookup_key(pt, a.id)->0, seq![a.id, b.id]),
        lookup_key(pt, b.id) is None,
        !b.patched,
    ensures
        ids_of(apply_patches_spec(seq![a, b], pt, images)) == seq![prefixed(a.id), prefixed(b.id)],
{
    let s = seq![a, b];
    let ids0 = ids_of(s);
    assert(ids0 =~= seq![a.id, b.id]);
    assert(has_patch(s, pt)) by {
        assert(lookup_key(pt, s[0].id) is Some);
    }
    let p = lookup_key(pt, a.id)->0;
    let a1 = patch_one(a, p, ids0);
    let s1 = s.update(0, a1);
    let r1 = Seq::<Seq<char>>::empty().push(a.id);
    assert(direct_from(s, 0, pt, ids0, Seq::empty()) == direct_from(s1, 1, pt, ids0, r1));
    assert(s1[1] == b);
    assert(direct_from(s1, 1, pt, ids0, r1) == direct_from(s1, 2, pt, ids0, r1));
    let st = direct_from(s, 0, pt, ids0, Seq::empty());
    assert(st.chars == s1 && st.renamed == r1);
    let (c0, q0, ch0) = propagate_one(a1, r1, images);
    assert(c0.id == prefixed(a.id) && c0.patched && q0 == r1 && !ch0);
    let t1 = s1.update(0, c0);
    assert(t1[1] == b);
    assert(r1.contains(a.id)) by {
        assert(r1[0] == a.id);
    }
    let kb = choose|k: int| 0 <= k < b.jinxes.len() && seq![a.id].contains((#[trigger] b.jinxes[k]).id);
    assert(seq![a.id][0] == a.id);
    assert(r1.contains(b.jinxes[kb].id));
    let (c1, q1, ch1) = propagate_one(b, r1, images);
    assert(c1.id == prefixed(b.id) && c1.patched && ch1);
    let t2 = t1.update(1, c1);
    assert(propagate_pass(s1, 0, r1, images, false) == propagate_pass(t1, 1, q0, images, false));
    assert(propagate_pass(t1, 1, q0, images, false) == propagate_pass(t2, 2, q1, images, true));
    assert(propagate(s1, r1, images) == propagate(t2, q1, images));
    lemma_propagate_keeps_patched(t2, q1, images);
    let res = propagate(t2, q1, images);
    assert(t2[0].patched && t2[1].patched);
    assert(res[0].id == prefixed(a.id));
    assert(res[1].id == prefixed(b.id));
    assert(ids_of(res) =~= seq![prefixed(a.id), prefixed(b.id)]);
}

/// No patch is keyed by, and no jinx of a patch targets, an id that starts
/// like a patched one.
pub open spec fn unprefixed_patches(pt: Seq<(Seq<char>, PatchView)>) -> bool {
    &&& forall|k: int| 0 <= k < pt.len() ==> !has_prefix((#[trigger] pt[k]).0, "patched_"@)
    &&& forall|k: int, m: int|
        0 <= k < pt.len() && 0 <= m < pt[k].1.jinxes.len() ==> !has_prefix(
            (#[trigger] pt[k].1.jinxes[m]).id,
            "patched_"@,
        )
}

pub proof fn lemma_prefixed_has_prefix(x: Seq<char>)
    ensures
        has_prefix(prefixed(x), "patched_"@),
{
    assert(prefixed(x).subrange(0, "patched_"@.len() as int) =~= "patched_"@);
}

pub proof fn lemma_present_jinxes_empty(js: Seq<JinxView>, ids: Seq<Seq<char>>)
    ensures
        present_jinxes(js, ids).len() == 0 <==> forall|m: int|
            0 <= m < js.len() ==> !ids.contains((#[trigger] js[m]).id),
    decreases js.len(),
{
    if js.len() > 0 {
        lemma_present_jinxes_empty(js.drop_last(), ids);
        if present_jinxes(js, ids).len() == 0 {
            assert forall|m: int| 0 <= m < js.len() implies !ids.contains((#[trigger] js[m]).id) by {
                if m < js.len() - 1 {
                    assert(js.drop_last()[m] == js[m]);
                }
            }
        } else {
            if !ids.contains(js.last().id) {
                let m = choose|m: int| 0 <= m < js.drop_last().len() && ids.contains((#[trigger] js.drop_last()[m]).id);
                assert(js[m] == js.drop_last()[m]);
            }
        }
    }
}

/// What the direct phase does from index `i` on: earlier characters stay,
/// every id stays or is prefixed, and each later character with a patch that
/// has an effect is renamed.
pub proof fn lemma_direct_shape(
    chars: Seq<CharacterView>,
    i: int,
    pt: Seq<(Seq<char>, PatchView)>,
    ids: Seq<Seq<char>>,
    renamed: Seq<Seq<char>>,
)
    requires
        0 <= i,
    ensures
        ({
            let st = direct_from(chars, i, pt, ids, renamed);
            &&& st.chars.len() == chars.len()
            &&& forall|k: int| 0 <= k < i && k < chars.len() ==> st.chars[k] == chars[k]
            &&& forall|k: int|
                0 <= k < chars.len() ==> (#[trigger] st.chars[k]).id == chars[k].id || st.chars[k].id
                    == prefixed(chars[k].id)
            &&& forall|k: int|
                i <= k < chars.len() && lookup_key(pt, (#[trigger] chars[k]).id) is Some && effective(
                    lookup_key(pt, chars[k].id)->0,
                    ids,
                ) ==> st.chars[k].id == prefixed(chars[k].id)
        }),
    decreases chars.len() - i,
{
    if i < chars.len() {
        match lookup_key(pt, chars[i].id) {
            Some(p) => if effective(p, ids) {
                let next = chars.update(i, patch_one(chars[i], p, ids));
                lemma_direct_shape(next, i + 1, pt, ids, renamed.push(chars[i].id));
            } else {
                lemma_direct_shape(chars, i + 1, pt, ids, renamed);
            },
            None => lemma_direct_shape(chars, i + 1, pt, ids, renamed),
        }
    }
}

/// Every id after propagation is the id before it, or starts like a patched
/// one.
pub proof fn lemma_propagate_shape(
    chars: Seq<CharacterView>,
    renamed: Seq<Seq<char>>,
    images: Seq<(Seq<char>, Seq<Seq<char>>)>,
)
    ensures
        propagate(chars, renamed, images).len() == chars.len(),
        forall|k: int|
            0 <= k < chars.len() ==> (#[trigger] propagate(chars, renamed, images)[k]).id
                == chars[k].id || has_prefix(propagate(chars, renamed, images)[k].id, "patched_"@),
    decreases unpatched(chars),
{
    let (c2, r2, ch) = propagate_pass(chars, 0, renamed, images, false);
    lemma_pass_shape(chars, 0, renamed, images, false);
    if ch {
        lemma_pass_monotone(chars, 0, renamed, images, false);
        lemma_unpatched_decreases(chars, c2);
        lemma_propagate_shape(c2, r2, images);
        let res = propagate(c2, r2, images);
        assert forall|k: int| 0 <= k < chars.len() implies (#[trigger] res[k]).id == chars[k].id
            || has_prefix(res[k].id, "patched_"@) by {
            assert(res[k].id == c2[k].id || has_prefix(res[k].id, "patched_"@));
            assert(c2[k].id == chars[k].id || has_prefix(c2[k].id, "patched_"@));
        }
    }
}

pub proof fn lemma_pass_shape(
    chars: Seq<CharacterView>,
    i: int,
    renamed: Seq<Seq<char>>,
    images: Seq<(Seq<char>, Seq<Seq<char>>)>,
    changed: bool,
)
    requires
        0 <= i,
    ensures
        propagate_pass(chars, i, renamed, images, changed).0.len() == chars.len(),
        forall|k: int|
            0 <= k < chars.len() ==> (#[trigger] propagate_pass(chars, i, renamed, images, changed).0[k]).id
                == chars[k].id || has_prefix(
                propagate_pass(chars, i, renamed, images, changed).0[k].id,
                "patched_"@,
            ),
    decreases chars.len() - i,
{
    if i < chars.len() {
        let (c, r, ch) = propagate_one(chars[i], renamed, images);
        let next = chars.update(i, c);
        lemma_prefixed_has_prefix(chars[i].id);
        lemma_pass_shape(next, i + 1, r, images, changed || ch);
        let res = propagate_pass(next, i + 1, r, images, changed || ch).0;
        assert forall|k: int| 0 <= k < chars.len() implies (#[trigger] res[k]).id == chars[k].id
            || has_prefix(res[k].id, "patched_"@) by {
            assert(res[k].id == next[k].id || has_prefix(res[k].id, "patched_"@));
        }
    }
}

/// With nothing renamed, propagation changes nothing.
pub proof fn lemma_pass_nothing_renamed(
    chars: Seq<CharacterView>,
    i: int,
    images: Seq<(Seq<char>, Seq<Seq<char>>)>,
)
    requires
        0 <= i,
    ensures
        propagate_pass(chars, i, Seq::empty(), images, false) == (chars, Seq::<Seq<char>>::empty(), false),
    decreases chars.len() - i,
{
    if i < chars.len() {
        assert(!refers_to(chars[i].jinxes, Seq::empty()));
        assert(chars.update(i, chars[i]) =~= chars);
        lemma_pass_nothing_renamed(chars, i + 1, images);
    }
}

/// Without patches that have an effect from index `i` on, the direct phase
/// changes nothing.
pub proof fn lemma_direct_nothing(
    chars: Seq<CharacterView>,
    i: int,
    pt: Seq<(Seq<char>, PatchView)>,
    ids: Seq<Seq<char>>,
)
    requires
        0 <= i,
        forall|k: int|
            i <= k < chars.len() && lookup_key(pt, (#[trigger] chars[k]).id) is Some ==> !effective(
                lookup_key(pt, chars[k].id)->0,
                ids,
            ),
    ensures
        direct_from(chars, i, pt, ids, Seq::empty()) == (PatchState { chars, renamed: Seq::empty() }),
    decreases chars.len() - i,
{
    if i < chars.len() {
        lemma_direct_nothing(chars, i + 1, pt, ids);
    }
}

/// Applying the same patches twice gives what applying them once gives: no
/// id is prefixed twice. This holds when no patch is keyed by, or names as a
/// jinx target, an id that starts with the prefix of patched ids.
pub proof fn lemma_apply_patches_idempotent(
    chars: Seq<CharacterView>,
    pt: Seq<(Seq<char>, PatchView)>,
    images: Seq<(Seq<char>, Seq<Seq<char>>)>,
)
    requires
        unprefixed_patches(pt),
    ensures
        apply_patches_spec(apply_patches_spec(chars, pt, images), pt, images) == apply_patches_spec(
            chars,
            pt,
            images,
        ),
{
    let s1 = apply_patches_spec(chars, pt, images);
    if has_patch(chars, pt) && has_patch(s1, pt) {
        let ids0 = ids_of(chars);
        let st = direct_from(chars, 0, pt, ids0, Seq::empty());
        lemma_direct_shape(chars, 0, pt, ids0, Seq::empty());
        lemma_propagate_shape(st.chars, st.renamed, images);
        let ids1 = ids_of(s1);
        assert forall|k: int|
            0 <= k < s1.len() && lookup_key(pt, (#[trigger] s1[k]).id) is Some implies !effective(
            lookup_key(pt, s1[k].id)->0,
            ids1,
        ) by {
            let id = s1[k].id;
            lemma_find_key(pt, id, 0);
            let f = find_key(pt, id, 0);
            assert(pt[f].0 == id);
            assert(!has_prefix(id, "patched_"@));
            lemma_prefixed_has_prefix(chars[k].id);
            assert(s1[k].id == st.chars[k].id);
            assert(st.chars[k].id == chars[k].id);
            let p = lookup_key(pt, id)->0;
            assert(p == pt[f].1);
            assert(!effective(p, ids0));
            lemma_present_jinxes_empty(p.jinxes, ids0);
            lemma_present_jinxes_empty(p.jinxes, ids1);
            assert forall|m: int| 0 <= m < p.jinxes.len() implies !ids1.contains(
                (#[trigger] p.jinxes[m]).id,
            ) by {
                let target = p.jinxes[m].id;
                assert(!has_prefix(pt[f].1.jinxes[m].id, "patched_"@));
                if ids1.contains(target) {
                    let n = choose|n: int| 0 <= n < ids1.len() && ids1[n] == target;
                    assert(s1[n].id == target);
                    assert(s1[n].id == st.chars[n].id || has_prefix(s1[n].id, "patched_"@));
                    lemma_prefixed_has_prefix(chars[n].id);
                    assert(st.chars[n].id == chars[n].id || has_prefix(st.chars[n].id, "patched_"@));
                    assert(ids0[n] == chars[n].id);
                    assert(ids0.contains(target));
                }
            }
        }
        lemma_direct_nothing(s1, 0, pt, ids1);
        lemma_pass_nothing_renamed(s1, 0, images);
    }
}

/// The direct phase either leaves a character as it is or renames it once
/// and marks it patched.
pub proof fn lemma_direct_once(
    chars: Seq<CharacterView>,
    i: int,
    pt: Seq<(Seq<char>, PatchView)>,
    ids: Seq<Seq<char>>,
    renamed: Seq<Seq<char>>,
)
    requires
        0 <= i,
    ensures
        forall|k: int|
            0 <= k < chars.len() ==> (#[trigger] direct_from(chars, i, pt, ids, renamed).chars[k])
                == chars[k] || (direct_from(chars, i, pt, ids, renamed).chars[k].id == prefixed(
                chars[k].id,
            ) && direct_from(chars, i, pt, ids, renamed).chars[k].patched),
    decreases chars.len() - i,
{
    lemma_direct_shape(chars, i, pt, ids, renamed);
    if i < chars.len() {
        match lookup_key(pt, chars[i].id) {
            Some(p) => if effective(p, ids) {
                let next = chars.update(i, patch_one(chars[i], p, ids));
                lemma_direct_once(next, i + 1, pt, ids, renamed.push(chars[i].id));
                lemma_direct_shape(next, i + 1, pt, ids, renamed.push(chars[i].id));
                let st = direct_from(next, i + 1, pt, ids, renamed.push(chars[i].id));
                assert(st.chars[i] == next[i]);
            } else {
                lemma_direct_once(chars, i + 1, pt, ids, renamed);
            },
            None => lemma_direct_once(chars, i + 1, pt, ids, renamed),
        }
    }
}

pub proof fn lemma_pass_once(
    chars: Seq<CharacterView>,
    i: int,
    renamed: Seq<Seq<char>>,
    images: Seq<(Seq<char>, Seq<Seq<char>>)>,
    changed: bool,
)
    requires
        0 <= i,
    ensures
        propagate_pass(chars, i, renamed, images, changed).0.len() == chars.len(),
        forall|k: int|
            0 <= k < chars.len() ==> (#[trigger] propagate_pass(chars, i, renamed, images, changed).0[k]).id
                == chars[k].id || (propagate_pass(chars, i, renamed, images, changed).0[k].id
                == prefixed(chars[k].id) && propagate_pass(
                chars,
                i,
                renamed,
                images,
                changed,
            ).0[k].patched),
    decreases chars.len() - i,
{
    if i < chars.len() {
        let (c, r, ch) = propagate_one(chars[i], renamed, images);
        let next = chars.update(i, c);
        lemma_pass_once(next, i + 1, r, images, changed || ch);
        lemma_pass_keeps_patched(next, i + 1, r, images, changed || ch);
        let res = propagate_pass(next, i + 1, r, images, changed || ch).0;
        assert forall|k: int| 0 <= k < chars.len() implies (#[trigger] res[k]).id == chars[k].id || (
        res[k].id == prefixed(chars[k].id) && res[k].patched) by {
            if k == i && next[k].patched && next[k].id == prefixed(chars[k].id) {
                assert(res[k].id == next[k].id);
            }
        }
    }
}

/// Propagation renames each character at most once.
pub proof fn lemma_propagate_once(
    chars: Seq<CharacterView>,
    renamed: Seq<Seq<char>>,
    images: Seq<(Seq<char>, Seq<Seq<char>>)>,
)
    ensures
        propagate(chars, renamed, images).len() == chars.len(),
        forall|k: int|
            0 <= k < chars.len() ==> (#[trigger] propagate(chars, renamed, images)[k]).id
                == chars[k].id || propagate(chars, renamed, images)[k].id == prefixed(chars[k].id),
    decreases unpatched(chars),
{
    let (c2, r2, ch) = propagate_pass(chars, 0, renamed, images, false);
    lemma_pass_once(chars, 0, renamed, images, false);
    if ch {
        lemma_pass_monotone(chars, 0, renamed, images, false);
        lemma_unpatched_decreases(chars, c2);
        lemma_propagate_once(c2, r2, images);
        lemma_propagate_keeps_patched(c2, r2, images);
        let res = propagate(c2, r2, images);
        assert forall|k: int| 0 <= k < chars.len() implies (#[trigger] res[k]).id == chars[k].id
            || res[k].id == prefixed(chars[k].id) by {
            if c2[k].id != chars[k].id {
                assert(c2[k].patched);
            }
        }
    }
}

/// Applying the same patches twice leaves each id as it was or prefixed
/// exactly once, when no patch is keyed by, or names as a jinx target, an id
/// that starts with the prefix of patched ids.
pub proof fn lemma_apply_twice_prefixes_once(
    chars: Seq<CharacterView>,
    pt: Seq<(Seq<char>, PatchView)>,
    images: Seq<(Seq<char>, Seq<Seq<char>>)>,
)
    requires
        unprefixed_patches(pt),
    ensures
        apply_patches_spec(apply_patches_spec(chars, pt, images), pt, images).len() == chars.len(),
        forall|k: int|
            0 <= k < chars.len() ==> (#[trigger] apply_patches_spec(
                apply_patches_spec(chars, pt, images),
                pt,
                images,
            )[k]).id == chars[k].id || apply_patches_spec(
                apply_patches_spec(chars, pt, images),
                pt,
                images,
            )[k].id == prefixed(chars[k].id),
{
    lemma_apply_patches_idempotent(chars, pt, images);
    if has_patch(chars, pt) {
        let ids0 = ids_of(chars);
        let st = direct_from(chars, 0, pt, ids0, Seq::empty());
        lemma_direct_shape(chars, 0, pt, ids0, Seq::empty());
        lemma_direct_once(chars, 0, pt, ids0, Seq::empty());
        lemma_propagate_once(st.chars, st.renamed, images);
        lemma_propagate_keeps_patched(st.chars, st.renamed, images);
        let res = propagate(st.chars, st.renamed, images);
        assert forall|k: int| 0 <= k < chars.len() implies (#[trigger] res[k]).id == chars[k].id
            || res[k].id == prefixed(chars[k].id) by {
            if st.chars[k] != chars[k] {
                assert(st.chars[k].patched);
            }
        }
    }
}

/// In the same cycle, when neither id starts like a patched one,
/// propagation stops after its second pass, which renames nothing; both
/// characters end marked patched and each jinx between them targets the
/// other's new id.
pub proof fn lemma_jinx_cycle_retargets(
    a: CharacterView,
    b: CharacterView,
    pt: Seq<(Seq<char>, PatchView)>,
    images: Seq<(Seq<char>, Seq<Seq<char>>)>,
)
    requires
        refers_to(a.jinxes, seq![b.id]),
        refers_to(b.jinxes, seq![a.id]),
        lookup_key(pt, a.id) is Some,
        effective(lookup_key(pt, a.id)->0, seq![a.id, b.id]),
        lookup_key(pt, b.id) is None,
        !b.patched,
        !has_prefix(a.id, "patched_"@),
        !has_prefix(b.id, "patched_"@),
    ensures
        patch_passes(seq![a, b], pt, images) == 2,
        ({
            let res = apply_patches_spec(seq![a, b], pt, images);
            &&& res.len() == 2
            &&& res[0].patched && res[1].patched
            &&& forall|k: int|
                0 <= k < a.jinxes.len() && a.jinxes[k].id == b.id ==> (#[trigger] res[0].jinxes[k]).id
                    == prefixed(b.id)
            &&& forall|k: int|
                0 <= k < b.jinxes.len() && b.jinxes[k].id == a.id ==> (#[trigger] res[1].jinxes[k]).id
                    == prefixed(a.id)
        }),
{
    let s = seq![a, b];
    let ids0 = ids_of(s);
    assert(ids0 =~= seq![a.id, b.id]);
    assert(has_patch(s, pt)) by {
        assert(lookup_key(pt, s[0].id) is Some);
    }
    assert(a.id != b.id);
    let p = lookup_key(pt, a.id)->0;
    let a1 = patch_one(a, p, ids0);
    let s1 = s.update(0, a1);
    let r1 = Seq::<Seq<char>>::empty().push(a.id);
    assert(direct_from(s, 0, pt, ids0, Seq::empty()) == direct_from(s1, 1, pt, ids0, r1));
    assert(s1[1] == b);
    assert(direct_from(s1, 1, pt, ids0, r1) == direct_from(s1, 2, pt, ids0, r1));
    assert forall|k: int| 0 <= k < a.jinxes.len() implies (#[trigger] a1.jinxes[k]) == a.jinxes[k] by {}
    let (c0, q0, ch0) = propagate_one(a1, r1, images);
    assert(c0.patched && q0 == r1 && !ch0);
    assert forall|k: int| 0 <= k < a.jinxes.len() && a.jinxes[k].id == b.id implies (
    #[trigger] c0.jinxes[k]).id == b.id by {
        assert(a1.jinxes[k] == a.jinxes[k]);
        assert(!r1.contains(b.id)) by {
            if r1.contains(b.id) {
                let m = choose|m: int| 0 <= m < r1.len() && r1[m] == b.id;
                assert(r1[m] == a.id);
            }
        }
    }
    let t1 = s1.update(0, c0);
    assert(r1.contains(a.id)) by {
        assert(r1[0] == a.id);
    }
    let kb = choose|k: int| 0 <= k < b.jinxes.len() && seq![a.id].contains((#[trigger] b.jinxes[k]).id);
    assert(seq![a.id][0] == a.id);
    assert(r1.contains(b.jinxes[kb].id));
    let (c1, q1, ch1) = propagate_one(b, r1, images);
    assert(c1.patched && ch1 && q1 == r1.push(b.id));
    let t2 = t1.update(1, c1);
    assert(propagate_pass(s1, 0, r1, images, false) == propagate_pass(t1, 1, q0, images, false));
    assert(propagate_pass(t1, 1, q0, images, false) == propagate_pass(t2, 2, q1, images, true));
    assert(propagate(s1, r1, images) == propagate(t2, q1, images));
    assert(q1[0] == a.id && q1[1] == b.id && q1.len() == 2);
    lemma_prefixed_has_prefix(a.id);
    lemma_prefixed_has_prefix(b.id);
    assert forall|x: Seq<char>| q1.contains(x) implies x == a.id || x == b.id by {
        let m = choose|m: int| 0 <= m < q1.len() && q1[m] == x;
    }
    assert(!refers_to(c1.jinxes, q1)) by {
        assert forall|k: int| 0 <= k < c1.jinxes.len() implies !q1.contains((#[trigger] c1.jinxes[k]).id) by {
            let x = b.jinxes[k].id;
            lemma_prefixed_has_prefix(x);
            if q1.contains(x) {
                assert(c1.jinxes[k].id == prefixed(x));
                if q1.contains(prefixed(x)) {
                    assert(prefixed(x) == a.id || prefixed(x) == b.id);
                }
            }
        }
    }
    let (d0, u0, e0) = propagate_one(c0, q1, images);
    assert(!e0 && u0 == q1 && d0.patched);
    let v1 = t2.update(0, d0);
    assert(v1[1] == c1);
    let (d1, u1, e1) = propagate_one(c1, q1, images);
    assert(d1 == c1 && !e1 && u1 == q1);
    let v2 = v1.update(1, d1);
    assert(propagate_pass(t2, 0, q1, images, false) == propagate_pass(v1, 1, q1, images, false));
    assert(propagate_pass(v1, 1, q1, images, false) == propagate_pass(v2, 2, q1, images, false));
    assert(propagate(t2, q1, images) == v2);
    assert(pass_count(t2, q1, images) == 1);
    assert(pass_count(s1, r1, images) == 2);
    assert forall|k: int| 0 <= k < a.jinxes.len() && a.jinxes[k].id == b.id implies (
    #[trigger] v2[0].jinxes[k]).id == prefixed(b.id) by {
        assert(c0.jinxes[k].id == b.id);
        assert(q1.contains(b.id)) by {
            assert(q1[1] == b.id);
        }
        assert(refers_to(c0.jinxes, q1));
        assert(d0.jinxes[k].id == prefixed(b.id));
    }
    assert forall|k: int| 0 <= k < b.jinxes.len() && b.jinxes[k].id == a.id implies (
    #[trigger] v2[1].jinxes[k]).id == prefixed(a.id) by {
        assert(c1.jinxes[k].id == prefixed(a.id));
    }
}

} // verus!
