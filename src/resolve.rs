//! Requirement resolution: every character that a character of the script
//! requires is added from the character table, until nothing more is added.
use vstd::prelude::*;

use crate::character::{Character, CharacterView, character_views, ids_of};
use crate::error::{ParseError, ParseErrorView};
use crate::script::Script;
use crate::sort::{
    insert_pos, is_sorted, lemma_sort_characters, precedes, sort_by_canonical_order,
    sort_characters,
};
use crate::table::{find_id, lemma_find_id, lookup, CharacterTable};
use crate::text::{strs, to_chars};

verus! {

/// Adds to `cur`, for the character `who`, each id of `req` from index `j`
/// on that no character of `cur` has, as it stands in `t`.
pub open spec fn add_required(
    cur: Seq<CharacterView>,
    req: Seq<Seq<char>>,
    j: int,
    who: Seq<char>,
    t: Seq<CharacterView>,
) -> Result<Seq<CharacterView>, ParseErrorView>
    decreases req.len() - j,
{
    if j < 0 || j >= req.len() {
        Ok(cur)
    } else if ids_of(cur).contains(req[j]) {
        add_required(cur, req, j + 1, who, t)
    } else {
        match lookup(t, req[j]) {
            None => Err(
                ParseErrorView::MissingRequirement { id: req[j], required_by: who },
            ),
            Some(c) => add_required(cur.push(c), req, j + 1, who, t),
        }
    }
}

/// One pass over the characters at indices `i` up to `n`, each adding what
/// it requires.
pub open spec fn resolve_pass(cur: Seq<CharacterView>, i: int, n: int, t: Seq<CharacterView>) -> Result<
    Seq<CharacterView>,
    ParseErrorView,
>
    decreases n - i,
{
    if i < 0 || i >= n || i >= cur.len() {
        Ok(cur)
    } else {
        match add_required(cur, cur[i].required_characters, 0, cur[i].id, t) {
            Ok(next) => resolve_pass(next, i + 1, n, t),
            Err(e) => Err(e),
        }
    }
}

/// How many characters of `t` have an id that no character of `cur` has.
pub open spec fn missing(cur: Seq<CharacterView>, t: Seq<CharacterView>) -> nat
    decreases t.len(),
{
    if t.len() == 0 {
        0
    } else {
        missing(cur, t.drop_last()) + if ids_of(cur).contains(t.last().id) {
            0nat
        } else {
            1nat
        }
    }
}

/// `next` extends `cur` with characters of `t` whose ids `cur` lacks.
pub open spec fn extends_from_table(
    cur: Seq<CharacterView>,
    next: Seq<CharacterView>,
    t: Seq<CharacterView>,
) -> bool {
    &&& cur.len() <= next.len()
    &&& next.subrange(0, cur.len() as int) == cur
    &&& forall|k: int|
        cur.len() <= k < next.len() ==> lookup(t, (#[trigger] next[k]).id) == Some(next[k])
            && !ids_of(cur).contains(next[k].id)
}

pub proof fn lemma_extends_trans(
    a: Seq<CharacterView>,
    b: Seq<CharacterView>,
    c: Seq<CharacterView>,
    t: Seq<CharacterView>,
)
    requires
        extends_from_table(a, b, t),
        extends_from_table(b, c, t),
    ensures
        extends_from_table(a, c, t),
{
    assert(c.subrange(0, a.len() as int) =~= b.subrange(0, a.len() as int));
    assert forall|k: int| a.len() <= k < c.len() implies lookup(t, (#[trigger] c[k]).id) == Some(
        c[k],
    ) && !ids_of(a).contains(c[k].id) by {
        if k < b.len() {
            assert(c[k] == b[k]);
        } else {
            if ids_of(a).contains(c[k].id) {
                let m = choose|m: int| 0 <= m < ids_of(a).len() && ids_of(a)[m] == c[k].id;
                assert(ids_of(b)[m] == b[m].id);
                assert(b[m] == a[m]);
                assert(ids_of(b).contains(c[k].id));
            }
        }
    }
}

pub proof fn lemma_add_required_extends(
    cur: Seq<CharacterView>,
    req: Seq<Seq<char>>,
    j: int,
    who: Seq<char>,
    t: Seq<CharacterView>,
)
    requires
        0 <= j,
        add_required(cur, req, j, who, t) is Ok,
    ensures
        extends_from_table(cur, add_required(cur, req, j, who, t)->Ok_0, t),
    decreases req.len() - j,
{
    if j < req.len() {
        if ids_of(cur).contains(req[j]) {
            lemma_add_required_extends(cur, req, j + 1, who, t);
        } else {
            let c = lookup(t, req[j])->0;
            lemma_find_id(t, req[j], 0);
            let next = cur.push(c);
            assert(extends_from_table(cur, next, t)) by {
                assert(next.subrange(0, cur.len() as int) =~= cur);
            }
            lemma_add_required_extends(next, req, j + 1, who, t);
            lemma_extends_trans(cur, next, add_required(next, req, j + 1, who, t)->Ok_0, t);
        }
    } else {
        assert(cur.subrange(0, cur.len() as int) =~= cur);
    }
}

pub proof fn lemma_resolve_pass_extends(cur: Seq<CharacterView>, i: int, n: int, t: Seq<CharacterView>)
    requires
        0 <= i,
        resolve_pass(cur, i, n, t) is Ok,
    ensures
        extends_from_table(cur, resolve_pass(cur, i, n, t)->Ok_0, t),
    decreases n - i,
{
    if i >= n || i >= cur.len() {
        assert(cur.subrange(0, cur.len() as int) =~= cur);
    } else {
        let next = add_required(cur, cur[i].required_characters, 0, cur[i].id, t)->Ok_0;
        lemma_add_required_extends(cur, cur[i].required_characters, 0, cur[i].id, t);
        lemma_resolve_pass_extends(next, i + 1, n, t);
        lemma_extends_trans(cur, next, resolve_pass(next, i + 1, n, t)->Ok_0, t);
    }
}

pub proof fn lemma_missing_shrinks(cur: Seq<CharacterView>, next: Seq<CharacterView>, t: Seq<CharacterView>)
    requires
        forall|x: Seq<char>| ids_of(cur).contains(x) ==> ids_of(next).contains(x),
    ensures
        missing(next, t) <= missing(cur, t),
        (exists|k: int|
            0 <= k < t.len() && !ids_of(cur).contains(#[trigger] t[k].id) && ids_of(
                next,
            ).contains(t[k].id)) ==> missing(next, t) < missing(cur, t),
    decreases t.len(),
{
    if t.len() > 0 {
        lemma_missing_shrinks(cur, next, t.drop_last());
        if exists|k: int|
            0 <= k < t.len() && !ids_of(cur).contains(#[trigger] t[k].id) && ids_of(
                next,
            ).contains(t[k].id) {
            let k = choose|k: int|
                0 <= k < t.len() && !ids_of(cur).contains(#[trigger] t[k].id) && ids_of(
                    next,
                ).contains(t[k].id);
            if k < t.len() - 1 {
                assert(t.drop_last()[k] == t[k]);
            }
        }
    }
}

/// A pass that adds something leaves fewer characters of `t` missing.
pub proof fn lemma_pass_progress(cur: Seq<CharacterView>, t: Seq<CharacterView>)
    requires
        resolve_pass(cur, 0, cur.len() as int, t) is Ok,
        resolve_pass(cur, 0, cur.len() as int, t)->Ok_0.len() != cur.len(),
    ensures
        missing(resolve_pass(cur, 0, cur.len() as int, t)->Ok_0, t) < missing(cur, t),
{
    let next = resolve_pass(cur, 0, cur.len() as int, t)->Ok_0;
    lemma_resolve_pass_extends(cur, 0, cur.len() as int, t);
    assert forall|x: Seq<char>| ids_of(cur).contains(x) implies ids_of(next).contains(x) by {
        let m = choose|m: int| 0 <= m < ids_of(cur).len() && ids_of(cur)[m] == x;
        assert(next.subrange(0, cur.len() as int)[m] == next[m]);
        assert(ids_of(next)[m] == x);
    }
    let x = next[cur.len() as int];
    lemma_find_id(t, x.id, 0);
    let k = find_id(t, x.id, 0);
    assert(ids_of(next)[cur.len() as int] == x.id);
    assert(!ids_of(cur).contains(t[k].id) && ids_of(next).contains(t[k].id));
    lemma_missing_shrinks(cur, next, t);
}

/// Passes over the script until one adds nothing.
pub open spec fn resolve_from(cur: Seq<CharacterView>, t: Seq<CharacterView>) -> Result<
    Seq<CharacterView>,
    ParseErrorView,
>
    decreases missing(cur, t),
{
    match resolve_pass(cur, 0, cur.len() as int, t) {
        Err(e) => Err(e),
        Ok(next) => if next.len() == cur.len() {
            Ok(cur)
        } else {
            proof {
                lemma_pass_progress(cur, t);
            }
            resolve_from(next, t)
        },
    }
}

/// The characters of a resolved script as it presents them: in canonical
/// order, or as they stand when the script keeps its order.
pub open spec fn arranged(cs: Seq<CharacterView>, keep_order: bool) -> Seq<CharacterView> {
    if keep_order {
        cs
    } else {
        sort_characters(cs)
    }
}

/// Whether a character of `v` has the id `id`.
pub fn has_id(v: &Vec<Character>, id: &Vec<char>) -> (r: bool)
    ensures
        r == ids_of(character_views(v@)).contains(id@),
{
    let ghost ids = ids_of(character_views(v@));
    let mut i: usize = 0;
    while i < v.len()
        invariant
            i <= v@.len(),
            ids == ids_of(character_views(v@)),
            forall|k: int| 0 <= k < i ==> ids[k] != id@,
        decreases v@.len() - i,
    {
        let cid = to_chars(v[i].id.as_str());
        if crate::text::same_chars(&cid, id) {
            assert(ids[i as int] == id@);
            return true;
        }
        i = i + 1;
    }
    assert(!ids.contains(id@));
    false
}

impl Script {
    /// Adds to the script every character that one of its characters
    /// requires and that it lacks, taken from `character_list`, pass after
    /// pass until a pass adds nothing. The characters already there keep
    /// their places; the added ones follow, unsorted. On an error the script
    /// is left as it was.
    pub fn resolve_required(&mut self, character_list: &CharacterTable) -> (r: Result<(), ParseError>)
        ensures
            match resolve_from(old(self)@.characters, character_list@) {
                Ok(cs) => r is Ok && final(self)@ == (crate::script::ScriptView {
                    characters: cs,
                    ..old(self)@
                }),
                Err(e) => r is Err && r->Err_0@ == e && final(self)@ == old(self)@,
            },
    {
        let mut cur = self.characters.clone();
        assert(character_views(cur@) =~= character_views(self.characters@));
        let ghost t = character_list@;
        let ghost target = resolve_from(character_views(cur@), t);
        loop
            invariant
                t == character_list@,
                self@ == old(self)@,
                target == resolve_from(old(self)@.characters, t),
                resolve_from(character_views(cur@), t) == target,
            decreases missing(character_views(cur@), t),
        {
            let ghost start = character_views(cur@);
            let n = cur.len();
            let mut i: usize = 0;
            while i < n
                invariant
                    t == character_list@,
                    self@ == old(self)@,
                    target == resolve_from(old(self)@.characters, t),
                    resolve_from(start, t) == target,
                    i <= n <= cur@.len(),
                    n == start.len(),
                    start.len() <= character_views(cur@).len(),
                    character_views(cur@).subrange(0, n as int) == start,
                    resolve_pass(start, 0, n as int, t) == resolve_pass(
                        character_views(cur@),
                        i as int,
                        n as int,
                        t,
                    ),
                decreases n - i,
            {
                let req = cur[i].required_characters.clone();
                let ghost reqv = strs(req@);
                assert(reqv =~= character_views(cur@)[i as int].required_characters);
                let mut j: usize = 0;
                while j < req.len()
                    invariant
                        t == character_list@,
                        self@ == old(self)@,
                        target == resolve_from(old(self)@.characters, t),
                        resolve_from(start, t) == target,
                        i < n <= cur@.len(),
                        n == start.len(),
                        character_views(cur@).subrange(0, n as int) == start,
                        reqv == strs(req@),
                        j <= req@.len(),
                        resolve_pass(start, 0, n as int, t) == match add_required(
                            character_views(cur@),
                            reqv,
                            j as int,
                            start[i as int].id,
                            t,
                        ) {
                            Ok(next) => resolve_pass(next, i + 1, n as int, t),
                            Err(e) => Err(e),
                        },
                    decreases req@.len() - j,
                {
                    let id = to_chars(req[j].as_str());
                    if !has_id(&cur, &id) {
                        match character_list.get_chars(&id) {
                            None => {
                                return Err(
                                    ParseError::MissingRequirement {
                                        id: req[j].clone(),
                                        required_by: cur[i].id.clone(),
                                    },
                                );
                            },
                            Some(c) => {
                                let ghost before = character_views(cur@);
                                cur.push(c.clone());
                                assert(character_views(cur@) =~= before.push(c@));
                                assert(character_views(cur@).subrange(0, n as int) =~= before.subrange(0, n as int));
                            },
                        }
                    }
                    j = j + 1;
                }
                assert(character_views(cur@)[i as int] == start[i as int]);
                i = i + 1;
            }
            if cur.len() == n {
                assert(character_views(cur@) =~= start);
                self.characters = cur;
                return Ok(());
            }
            proof {
                lemma_pass_progress(start, t);
            }
        }
    }
}

/// Every id that a character of `cs` requires is the id of a character of
/// `cs`.
pub open spec fn closed(cs: Seq<CharacterView>) -> bool {
    forall|i: int, j: int|
        0 <= i < cs.len() && 0 <= j < cs[i].required_characters.len() ==> ids_of(cs).contains(
            #[trigger] cs[i].required_characters[j],
        )
}

proof fn lemma_add_required_present(
    cur: Seq<CharacterView>,
    req: Seq<Seq<char>>,
    j: int,
    who: Seq<char>,
    t: Seq<CharacterView>,
)
    requires
        0 <= j,
        forall|k: int| j <= k < req.len() ==> ids_of(cur).contains(req[k]),
    ensures
        add_required(cur, req, j, who, t) == Ok::<Seq<CharacterView>, ParseErrorView>(cur),
    decreases req.len() - j,
{
    if j < req.len() {
        lemma_add_required_present(cur, req, j + 1, who, t);
    }
}

proof fn lemma_pass_closed(cur: Seq<CharacterView>, i: int, n: int, t: Seq<CharacterView>)
    requires
        0 <= i,
        closed(cur),
    ensures
        resolve_pass(cur, i, n, t) == Ok::<Seq<CharacterView>, ParseErrorView>(cur),
    decreases n - i,
{
    if i < n && i < cur.len() {
        let req = cur[i].required_characters;
        assert forall|k: int| 0 <= k < req.len() implies ids_of(cur).contains(req[k]) by {
            assert(ids_of(cur).contains(cur[i].required_characters[k]));
        }
        lemma_add_required_present(cur, req, 0, cur[i].id, t);
        lemma_pass_closed(cur, i + 1, n, t);
    }
}

proof fn lemma_add_required_no_growth(
    cur: Seq<CharacterView>,
    req: Seq<Seq<char>>,
    j: int,
    who: Seq<char>,
    t: Seq<CharacterView>,
)
    requires
        0 <= j,
        add_required(cur, req, j, who, t) is Ok,
        add_required(cur, req, j, who, t)->Ok_0.len() == cur.len(),
    ensures
        forall|k: int| j <= k < req.len() ==> ids_of(cur).contains(req[k]),
    decreases req.len() - j,
{
    if j < req.len() {
        if ids_of(cur).contains(req[j]) {
            lemma_add_required_no_growth(cur, req, j + 1, who, t);
        } else {
            let c = lookup(t, req[j])->0;
            lemma_add_required_extends(cur.push(c), req, j + 1, who, t);
        }
    }
}

proof fn lemma_pass_no_growth(cur: Seq<CharacterView>, i: int, n: int, t: Seq<CharacterView>)
    requires
        0 <= i,
        resolve_pass(cur, i, n, t) is Ok,
        resolve_pass(cur, i, n, t)->Ok_0.len() == cur.len(),
    ensures
        forall|k: int, j: int|
            i <= k < n && k < cur.len() && 0 <= j < cur[k].required_characters.len() ==> ids_of(
                cur,
            ).contains(#[trigger] cur[k].required_characters[j]),
    decreases n - i,
{
    if i < n && i < cur.len() {
        let req = cur[i].required_characters;
        let next = add_required(cur, req, 0, cur[i].id, t)->Ok_0;
        lemma_add_required_extends(cur, req, 0, cur[i].id, t);
        lemma_resolve_pass_extends(next, i + 1, n, t);
        assert(next =~= cur) by {
            assert(next.subrange(0, cur.len() as int) == cur);
        }
        lemma_add_required_no_growth(cur, req, 0, cur[i].id, t);
        lemma_pass_no_growth(cur, i + 1, n, t);
    }
}

/// What resolution gives is closed under requirements.
pub proof fn lemma_resolved_closed(cur: Seq<CharacterView>, t: Seq<CharacterView>)
    requires
        resolve_from(cur, t) is Ok,
    ensures
        closed(resolve_from(cur, t)->Ok_0),
    decreases missing(cur, t),
{
    let next = resolve_pass(cur, 0, cur.len() as int, t)->Ok_0;
    if next.len() != cur.len() {
        lemma_pass_progress(cur, t);
        lemma_resolved_closed(next, t);
    } else {
        lemma_pass_no_growth(cur, 0, cur.len() as int, t);
    }
}

proof fn lemma_closed_permutation(a: Seq<CharacterView>, b: Seq<CharacterView>)
    requires
        closed(a),
        a.to_multiset() == b.to_multiset(),
    ensures
        closed(b),
{
    a.to_multiset_ensures();
    b.to_multiset_ensures();
    assert forall|i: int, j: int|
        0 <= i < b.len() && 0 <= j < b[i].required_characters.len() implies ids_of(b).contains(
        #[trigger] b[i].required_characters[j],
    ) by {
        assert(b.contains(b[i]));
        assert(b.to_multiset().count(b[i]) > 0);
        assert(a.to_multiset().count(b[i]) > 0);
        assert(a.contains(b[i]));
        let ia = choose|ia: int| 0 <= ia < a.len() && a[ia] == b[i];
        assert(a[ia].required_characters[j] == b[i].required_characters[j]);
        let x = b[i].required_characters[j];
        assert(ids_of(a).contains(x));
        let m = choose|m: int| 0 <= m < ids_of(a).len() && ids_of(a)[m] == x;
        assert(a.contains(a[m]));
        assert(a.to_multiset().count(a[m]) > 0);
        assert(b.to_multiset().count(a[m]) > 0);
        assert(b.contains(a[m]));
        let mb = choose|mb: int| 0 <= mb < b.len() && b[mb] == a[m];
        assert(ids_of(b)[mb] == x);
    }
}

/// Sorting a sequence that is already in canonical order leaves it as it is.
pub proof fn lemma_sort_sorted(s: Seq<CharacterView>)
    requires
        is_sorted(s),
    ensures
        sort_characters(s) == s,
    decreases s.len(),
{
    if s.len() > 0 {
        let t = s.drop_last();
        assert(is_sorted(t)) by {
            assert forall|i: int, j: int| 0 <= i < j < t.len() implies !precedes(#[trigger] t[j], #[trigger] t[i]) by {
                assert(t[i] == s[i] && t[j] == s[j]);
            }
        }
        lemma_sort_sorted(t);
        let x = s.last();
        assert forall|p: int| 0 <= p < t.len() implies !precedes(x, t[p]) by {
            assert(t[p] == s[p]);
            assert(x == s[s.len() - 1]);
        }
        lemma_insert_pos_end(t, x, 0);
        assert(t.insert(t.len() as int, x) =~= s);
    }
}

proof fn lemma_insert_pos_end(t: Seq<CharacterView>, x: CharacterView, p: int)
    requires
        0 <= p <= t.len(),
        forall|q: int| 0 <= q < t.len() ==> !precedes(x, t[q]),
    ensures
        insert_pos(t, x, p) == t.len(),
    decreases t.len() - p,
{
    if p < t.len() {
        lemma_insert_pos_end(t, x, p + 1);
    }
}

/// Resolution reaches a fixed point: the characters that resolution and
/// then the sort pass leave are closed under their requirements, resolving
/// them again adds nothing and changes nothing, and sorting them again
/// changes nothing, in canonical order or in the order kept.
pub proof fn lemma_resolve_fixed_point(cur: Seq<CharacterView>, keep_order: bool, t: Seq<CharacterView>)
    requires
        resolve_from(cur, t) is Ok,
    ensures
        closed(arranged(resolve_from(cur, t)->Ok_0, keep_order)),
        resolve_from(arranged(resolve_from(cur, t)->Ok_0, keep_order), t) == Ok::<
            Seq<CharacterView>,
            ParseErrorView,
        >(arranged(resolve_from(cur, t)->Ok_0, keep_order)),
        arranged(arranged(resolve_from(cur, t)->Ok_0, keep_order), keep_order) == arranged(
            resolve_from(cur, t)->Ok_0,
            keep_order,
        ),
{
    let r = resolve_from(cur, t)->Ok_0;
    lemma_resolved_closed(cur, t);
    let a = arranged(r, keep_order);
    if !keep_order {
        lemma_sort_characters(r);
        lemma_closed_permutation(r, a);
        lemma_sort_sorted(a);
    }
    lemma_pass_closed(a, 0, a.len() as int, t);
}

impl Script {
    /// The sort pass: puts the characters into canonical order unless the
    /// script keeps the order of its unit.
    pub fn arrange(&mut self)
        ensures
            final(self)@ == (crate::script::ScriptView {
                characters: arranged(old(self)@.characters, old(self)@.keep_order),
                ..old(self)@
            }),
    {
        if !self.keep_order {
            let mut cs: Vec<Character> = Vec::new();
            std::mem::swap(&mut cs, &mut self.characters);
            self.characters = sort_by_canonical_order(cs);
        }
    }
}

/// Resolution only appends: the characters before it are a prefix of those
/// after it, and each added one is the table's character for an id that was
/// missing.
pub proof fn lemma_resolve_appends(cur: Seq<CharacterView>, t: Seq<CharacterView>)
    requires
        resolve_from(cur, t) is Ok,
    ensures
        extends_from_table(cur, resolve_from(cur, t)->Ok_0, t),
    decreases missing(cur, t),
{
    let next = resolve_pass(cur, 0, cur.len() as int, t)->Ok_0;
    if next.len() != cur.len() {
        lemma_pass_progress(cur, t);
        lemma_resolve_pass_extends(cur, 0, cur.len() as int, t);
        lemma_resolve_appends(next, t);
        lemma_extends_trans(cur, next, resolve_from(next, t)->Ok_0, t);
    } else {
        assert(cur.subrange(0, cur.len() as int) =~= cur);
    }
}

} // verus!
