//! The canonical order of characters: by team, then by the opening phrase of
//! the ability, then by the lengths of ability and name, then by name.
use vstd::prelude::*;

use crate::character::{Character, CharacterView, character_views};
use crate::text::{
    byte_len, has_prefix, lemma_lex_asymmetric, lemma_lex_irreflexive, lemma_lex_total,
    lemma_lex_transitive, less_than, lex_lt, starts_with, to_chars, utf8_len,
};

verus! {

/// How many opening phrases the catalogue holds.
pub const PHRASE_COUNT: usize = 35;

/// The opening phrases of abilities, in the order in which they are sorted.
/// An entry that is a prefix of the next one is followed by that more specific
/// entry.
pub open spec fn phrase(i: int) -> Seq<char> {
    if i == 0 {
        "You start knowing"@
    } else if i == 1 {
        "Each night"@
    } else if i == 2 {
        "Each night*"@
    } else if i == 3 {
        "Each day"@
    } else if i == 4 {
        "Once per day"@
    } else if i == 5 {
        "Once per game, at night"@
    } else if i == 6 {
        "Once per game, at night*"@
    } else if i == 7 {
        "Once per game, during the day"@
    } else if i == 8 {
        "Once per game"@
    } else if i == 9 {
        "On your 1st night"@
    } else if i == 10 {
        "On your 1st day"@
    } else if i == 11 {
        "You think"@
    } else if i == 12 {
        "You are"@
    } else if i == 13 {
        "You have"@
    } else if i == 14 {
        "You do not know"@
    } else if i == 15 {
        "You might"@
    } else if i == 16 {
        "You"@
    } else if i == 17 {
        "When you die"@
    } else if i == 18 {
        "When you learn that you died"@
    } else if i == 19 {
        "When"@
    } else if i == 20 {
        "If you die"@
    } else if i == 21 {
        "If you died"@
    } else if i == 22 {
        "If you are \"mad\""@
    } else if i == 23 {
        "If you"@
    } else if i == 24 {
        "If the Demon dies"@
    } else if i == 25 {
        "If the Demon kills"@
    } else if i == 26 {
        "If the Demon"@
    } else if i == 27 {
        "If both"@
    } else if i == 28 {
        "If there are 5 or more players alive"@
    } else if i == 29 {
        "If"@
    } else if i == 30 {
        "All players"@
    } else if i == 31 {
        "All"@
    } else if i == 32 {
        "The 1st time"@
    } else if i == 33 {
        "The"@
    } else {
        "Minions"@
    }
}

/// The catalogue entry at `i`.
fn sort_phrase(i: usize) -> (r: &'static str)
    requires
        i < PHRASE_COUNT,
    ensures
        r@ == phrase(i as int),
{
    match i {
        0 => "You start knowing",
        1 => "Each night",
        2 => "Each night*",
        3 => "Each day",
        4 => "Once per day",
        5 => "Once per game, at night",
        6 => "Once per game, at night*",
        7 => "Once per game, during the day",
        8 => "Once per game",
        9 => "On your 1st night",
        10 => "On your 1st day",
        11 => "You think",
        12 => "You are",
        13 => "You have",
        14 => "You do not know",
        15 => "You might",
        16 => "You",
        17 => "When you die",
        18 => "When you learn that you died",
        19 => "When",
        20 => "If you die",
        21 => "If you died",
        22 => "If you are \"mad\"",
        23 => "If you",
        24 => "If the Demon dies",
        25 => "If the Demon kills",
        26 => "If the Demon",
        27 => "If both",
        28 => "If there are 5 or more players alive",
        29 => "If",
        30 => "All players",
        31 => "All",
        32 => "The 1st time",
        33 => "The",
        _ => "Minions",
    }
}

/// The first entry from `i` on that the ability starts with while it does not
/// also start with the entry after it; `PHRASE_COUNT` if there is none.
pub open spec fn sort_idx_from(a: Seq<char>, i: int) -> int
    decreases PHRASE_COUNT - i,
{
    if i < 0 || i >= PHRASE_COUNT {
        PHRASE_COUNT as int
    } else if has_prefix(a, phrase(i)) && (i + 1 >= PHRASE_COUNT || !has_prefix(a, phrase(i + 1))) {
        i
    } else {
        sort_idx_from(a, i + 1)
    }
}

/// The catalogue position of an ability's opening phrase.
pub open spec fn sort_idx(a: Seq<char>) -> int {
    sort_idx_from(a, 0)
}

/// The catalogue position of an ability's opening phrase: the first entry
/// that the ability starts with while it does not also start with the entry
/// after it, or the number of entries if there is none.
pub fn get_sort_idx(ability: &str) -> (r: usize)
    ensures
        r == sort_idx(ability@),
{
    let a = to_chars(ability);
    let mut idx: usize = 0;
    while idx < PHRASE_COUNT
        invariant
            idx <= PHRASE_COUNT,
            a@ == ability@,
            sort_idx(ability@) == sort_idx_from(ability@, idx as int),
        decreases PHRASE_COUNT - idx,
    {
        if starts_with(&a, sort_phrase(idx)) {
            if idx + 1 < PHRASE_COUNT {
                if !starts_with(&a, sort_phrase(idx + 1)) {
                    return idx;
                }
            } else {
                return idx;
            }
        }
        idx = idx + 1;
    }
    PHRASE_COUNT
}

/// Whether `a` comes strictly before `b`: by team, opening phrase, length of
/// the ability in bytes, length of the name in bytes, and name.
pub open spec fn precedes(a: CharacterView, b: CharacterView) -> bool {
    let (ta, tb) = (a.team.rank_spec(), b.team.rank_spec());
    let (ia, ib) = (sort_idx(a.ability), sort_idx(b.ability));
    let (la, lb) = (utf8_len(a.ability), utf8_len(b.ability));
    let (na, nb) = (utf8_len(a.name), utf8_len(b.name));
    ta < tb || (ta == tb && (ia < ib || (ia == ib && (la < lb || (la == lb && (na < nb || (na == nb
        && lex_lt(a.name, b.name))))))))
}

pub proof fn lemma_precedes_asymmetric(a: CharacterView, b: CharacterView)
    requires
        precedes(a, b),
    ensures
        !precedes(b, a),
{
    if precedes(b, a) && a.name != b.name {
        lemma_lex_asymmetric(a.name, b.name, 0);
    }
    if a.name == b.name {
        lemma_lex_irreflexive(a.name, 0);
    }
}

pub proof fn lemma_precedes_transitive(a: CharacterView, b: CharacterView, c: CharacterView)
    requires
        precedes(a, b),
        precedes(b, c),
    ensures
        precedes(a, c),
{
    if lex_lt(a.name, b.name) && lex_lt(b.name, c.name) {
        lemma_lex_transitive(a.name, b.name, c.name, 0);
    }
}

/// Two characters with different names are never tied.
pub proof fn lemma_precedes_total(a: CharacterView, b: CharacterView)
    requires
        a.name != b.name,
    ensures
        precedes(a, b) || precedes(b, a),
{
    assert(a.name.subrange(0, 0) =~= b.name.subrange(0, 0));
    lemma_lex_total(a.name, b.name, 0);
}

/// Whether `a` comes strictly before `b` in the canonical order.
pub fn precedes_exec(a: &Character, b: &Character) -> (r: bool)
    ensures
        r == precedes(a@, b@),
{
    let (ta, tb) = (a.team.rank(), b.team.rank());
    if ta != tb {
        return ta < tb;
    }
    let (ia, ib) = (get_sort_idx(a.ability.as_str()), get_sort_idx(b.ability.as_str()));
    if ia != ib {
        return ia < ib;
    }
    let (la, lb) = (byte_len(&to_chars(a.ability.as_str())), byte_len(&to_chars(b.ability.as_str())));
    if la != lb {
        return la < lb;
    }
    let (an, bn) = (to_chars(a.name.as_str()), to_chars(b.name.as_str()));
    let (na, nb) = (byte_len(&an), byte_len(&bn));
    if na != nb {
        return na < nb;
    }
    less_than(&an, &bn)
}

/// Where `x` goes into `t`, searching from `p`: before the first character
/// that it precedes, so that it comes after every character it ties with.
pub open spec fn insert_pos(t: Seq<CharacterView>, x: CharacterView, p: int) -> int
    decreases t.len() - p,
{
    if p < 0 || p >= t.len() {
        t.len() as int
    } else if precedes(x, t[p]) {
        p
    } else {
        insert_pos(t, x, p + 1)
    }
}

/// `t` with `x` inserted at its place.
pub open spec fn insert_sorted(t: Seq<CharacterView>, x: CharacterView) -> Seq<CharacterView> {
    t.insert(insert_pos(t, x, 0), x)
}

/// The characters of `s` in canonical order; characters that tie keep the
/// order in which they came.
pub open spec fn sort_characters(s: Seq<CharacterView>) -> Seq<CharacterView>
    decreases s.len(),
{
    if s.len() == 0 {
        s
    } else {
        insert_sorted(sort_characters(s.drop_last()), s.last())
    }
}

/// No character of `s` precedes one that stands before it.
pub open spec fn is_sorted(s: Seq<CharacterView>) -> bool {
    forall|i: int, j: int| 0 <= i < j < s.len() ==> !precedes(#[trigger] s[j], #[trigger] s[i])
}

pub proof fn lemma_insert_pos(t: Seq<CharacterView>, x: CharacterView, p: int)
    requires
        0 <= p <= t.len(),
    ensures
        p <= insert_pos(t, x, p) <= t.len(),
        insert_pos(t, x, p) < t.len() ==> precedes(x, t[insert_pos(t, x, p)]),
        forall|k: int| p <= k < insert_pos(t, x, p) ==> !precedes(x, #[trigger] t[k]),
    decreases t.len() - p,
{
    if p < t.len() && !precedes(x, t[p]) {
        lemma_insert_pos(t, x, p + 1);
    }
}

pub proof fn lemma_insert_sorted(t: Seq<CharacterView>, x: CharacterView)
    requires
        is_sorted(t),
    ensures
        is_sorted(insert_sorted(t, x)),
        insert_sorted(t, x).to_multiset() == t.to_multiset().insert(x),
{
    let p = insert_pos(t, x, 0);
    lemma_insert_pos(t, x, 0);
    let u = insert_sorted(t, x);
    t.insert_ensures(p, x);
    assert forall|i: int, j: int| 0 <= i < j < u.len() implies !precedes(#[trigger] u[j], #[trigger] u[i]) by {
        if j < p {
            assert(u[i] == t[i] && u[j] == t[j]);
        } else if j == p {
            assert(u[i] == t[i]);
        } else if i == p {
            assert(u[j] == t[j - 1]);
            if precedes(u[j], x) {
                if j - 1 == p {
                    lemma_precedes_asymmetric(x, t[p]);
                } else {
                    assert(!precedes(t[j - 1], t[p]));
                    lemma_precedes_transitive(t[j - 1], x, t[p]);
                }
            }
        } else if i < p {
            assert(u[i] == t[i] && u[j] == t[j - 1]);
        } else {
            assert(u[i] == t[i - 1] && u[j] == t[j - 1]);
        }
    }
    assert(u.remove(p) =~= t);
    u.to_multiset_ensures();
    assert(u.to_multiset().count(x) > 0) by {
        assert(u[p] == x);
        assert(u.contains(x));
    }
    assert(u.to_multiset() =~= t.to_multiset().insert(x));
}

/// The canonical order is sorted and holds the same characters.
pub proof fn lemma_sort_characters(s: Seq<CharacterView>)
    ensures
        is_sorted(sort_characters(s)),
        sort_characters(s).to_multiset() == s.to_multiset(),
    decreases s.len(),
{
    if s.len() > 0 {
        lemma_sort_characters(s.drop_last());
        lemma_insert_sorted(sort_characters(s.drop_last()), s.last());
        s.drop_last().to_multiset_ensures();
        assert(s.drop_last().push(s.last()) =~= s);
    }
}

/// Puts `v` into the canonical order; characters that tie keep their order.
pub fn sort_by_canonical_order(v: Vec<Character>) -> (r: Vec<Character>)
    ensures
        character_views(r@) == sort_characters(character_views(v@)),
{
    let ghost orig = character_views(v@);
    let n = v.len();
    let mut rest = v;
    let mut out: Vec<Character> = Vec::new();
    let mut i: usize = 0;
    assert(orig.subrange(0, 0) =~= Seq::<CharacterView>::empty());
    assert(character_views(out@) =~= Seq::<CharacterView>::empty());
    while rest.len() > 0
        invariant
            i + rest@.len() == orig.len(),
            orig.len() == n,
            character_views(rest@) == orig.subrange(i as int, orig.len() as int),
            character_views(out@) == sort_characters(orig.subrange(0, i as int)),
        decreases rest@.len(),
    {
        let ghost rv = rest@;
        assert(character_views(rv)[0] == orig[i as int]);
        let c = rest.remove(0);
        assert(c@ == orig[i as int]);
        assert(character_views(rest@) =~= character_views(rv).subrange(1, rv.len() as int));
        let ghost t = character_views(out@);
        let mut p: usize = 0;
        while p < out.len() && !precedes_exec(&c, &out[p])
            invariant
                p <= out@.len(),
                t == character_views(out@),
                insert_pos(t, c@, 0) == insert_pos(t, c@, p as int),
            decreases out@.len() - p,
        {
            p = p + 1;
        }
        out.insert(p, c);
        assert(character_views(out@) =~= t.insert(p as int, orig[i as int]));
        let ghost pre = orig.subrange(0, i + 1);
        assert(pre.drop_last() =~= orig.subrange(0, i as int));
        assert(character_views(rest@) =~= orig.subrange(i + 1, orig.len() as int));
        i = i + 1;
    }
    assert(orig.subrange(0, i as int) =~= orig);
    out
}

/// In the canonical order a character of an earlier team comes before a
/// character of a later team, whatever their abilities and names.
pub proof fn lemma_earlier_team_first(s: Seq<CharacterView>, i: int, j: int)
    requires
        0 <= i < sort_characters(s).len(),
        0 <= j < sort_characters(s).len(),
        sort_characters(s)[i].team.rank_spec() < sort_characters(s)[j].team.rank_spec(),
    ensures
        i < j,
{
    lemma_sort_characters(s);
    let r = sort_characters(s);
    if j < i {
        assert(!precedes(r[i], r[j]));
    }
}

/// Two characters of the same team whose abilities open with the same
/// catalogue phrase, and whose names differ, come in the order of the length
/// of their abilities, then of the length of their names, then of their names.
pub proof fn lemma_tie_breaks(s: Seq<CharacterView>, i: int, j: int)
    requires
        0 <= i < sort_characters(s).len(),
        0 <= j < sort_characters(s).len(),
        sort_characters(s)[i].team == sort_characters(s)[j].team,
        sort_idx(sort_characters(s)[i].ability) == sort_idx(sort_characters(s)[j].ability),
        sort_characters(s)[i].name != sort_characters(s)[j].name,
    ensures
        ({
            let (a, b) = (sort_characters(s)[i], sort_characters(s)[j]);
            i < j <==> (utf8_len(a.ability) < utf8_len(b.ability) || (utf8_len(a.ability) == utf8_len(
                b.ability,
            ) && (utf8_len(a.name) < utf8_len(b.name) || (utf8_len(a.name) == utf8_len(b.name)
                && lex_lt(a.name, b.name)))))
        }),
{
    lemma_sort_characters(s);
    let r = sort_characters(s);
    lemma_precedes_total(r[i], r[j]);
    if i < j {
        assert(!precedes(r[j], r[i]));
    } else if j < i {
        assert(!precedes(r[i], r[j]));
    }
}

} // verus!
