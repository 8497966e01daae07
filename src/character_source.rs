//! The text format of a character unit: name, team and ability on the first
//! three lines, then flags, blocks and `key value` lines.
use vstd::prelude::*;

use crate::character::{AppSpecial, AppSpecialView, Character, CharacterView, Jinx, JinxView, Team};
use crate::error::{ParseError, ParseErrorView, SourceError};
use crate::table::{lookup, CharacterTable};
use crate::text::{
    ascii_lowercase, chars_seqs, is_word, lines, lower_ascii, lower_ascii_all, parse_i32, parse_i32_spec, split_all,
    split_lines, split_once, split_once_space, split_spaces, string_of, strs, to_chars, trim,
    trim_chars,
};

verus! {

/// What has been read of a character unit so far: the record and the special
/// signals that it will carry if any is set.
pub struct Draft {
    pub c: CharacterView,
    pub sp: AppSpecialView,
}

pub open spec fn draft_view(c: Character, sp: AppSpecial) -> Draft {
    Draft { c: c@, sp: sp@ }
}

/// `n` moved by `d` tenths, held within the range of `i64`.
pub open spec fn shift(n: i64, d: int) -> i64 {
    if n + d > i64::MAX {
        i64::MAX
    } else if n + d < i64::MIN {
        i64::MIN
    } else {
        (n + d) as i64
    }
}

/// The index of the blank line that ends a block starting at `j`, or the
/// number of lines if no blank line follows.
pub open spec fn block_end(ls: Seq<Seq<char>>, j: int) -> int
    decreases ls.len() - j,
{
    if j >= ls.len() {
        ls.len() as int
    } else if ls[j].len() == 0 {
        j
    } else {
        block_end(ls, j + 1)
    }
}

pub proof fn lemma_block_end(ls: Seq<Seq<char>>, j: int)
    requires
        0 <= j <= ls.len(),
    ensures
        j <= block_end(ls, j) <= ls.len(),
    decreases ls.len() - j,
{
    if j < ls.len() && ls[j].len() != 0 {
        lemma_block_end(ls, j + 1);
    }
}

/// The index of the first line after a block starting at `j` and the blank
/// line that ends it.
pub open spec fn after_block(ls: Seq<Seq<char>>, j: int) -> int {
    let e = block_end(ls, j);
    if e < ls.len() {
        e + 1
    } else {
        e
    }
}

/// The lines of `b`, each followed by a newline.
pub open spec fn with_newlines(b: Seq<Seq<char>>) -> Seq<char>
    decreases b.len(),
{
    if b.len() == 0 {
        Seq::empty()
    } else {
        with_newlines(b.drop_last()) + b.last().push('\n')
    }
}

/// `n` copies of `x` (none if `n` is not positive).
pub open spec fn copies(x: Seq<char>, n: int) -> Seq<Seq<char>> {
    Seq::new(if n > 0 { n as nat } else { 0 }, |_i: int| x)
}

/// The team named exactly by `l`.
pub open spec fn team_of(l: Seq<char>) -> Option<Team> {
    if l == "Townsfolk"@ {
        Some(Team::Townsfolk)
    } else if l == "Outsider"@ {
        Some(Team::Outsider)
    } else if l == "Minion"@ {
        Some(Team::Minion)
    } else if l == "Demon"@ {
        Some(Team::Demon)
    } else if l == "Traveller"@ {
        Some(Team::Traveller)
    } else if l == "Fabled"@ {
        Some(Team::Fabled)
    } else if l == "Special"@ {
        Some(Team::Special)
    } else {
        None
    }
}

/// The effect of a bare flag line, if `l` is one.
pub open spec fn flag_step(d: Draft, l: Seq<char>) -> Option<Draft> {
    if l == "setup"@ {
        Some(Draft { c: CharacterView { setup: true, ..d.c }, ..d })
    } else if l == "bagdisabled"@ {
        Some(Draft { sp: AppSpecialView { bag_disabled: true, ..d.sp }, ..d })
    } else if l == "bagduplicate"@ {
        Some(Draft { sp: AppSpecialView { bag_duplicate: true, ..d.sp }, ..d })
    } else if l == "grimoire"@ {
        Some(Draft { sp: AppSpecialView { grimoire: true, ..d.sp }, ..d })
    } else if l == "replacereveal"@ {
        Some(Draft { sp: AppSpecialView { replace_reveal: true, ..d.sp }, ..d })
    } else if l == "grimoire_global_demon"@ {
        Some(Draft { sp: AppSpecialView { grimoire_global_demon: true, ..d.sp }, ..d })
    } else {
        None
    }
}

/// Which block a line opens: 1 attribution, 2 flavour, 3 examples, 4 how to
/// run, 5 advice, 0 none.
pub open spec fn block_kind(l: Seq<char>) -> int {
    if l == "attribution"@ {
        1
    } else if l == "flavour"@ || l == "flavor"@ {
        2
    } else if l == "examples"@ {
        3
    } else if l == "howtorun"@ {
        4
    } else if l == "advice"@ {
        5
    } else {
        0
    }
}

/// The lines `b` of a block of kind `kind` added to the draft.
pub open spec fn add_block(d: Draft, kind: int, b: Seq<Seq<char>>) -> Draft {
    if kind == 1 {
        Draft { c: CharacterView { attribution: d.c.attribution + b, ..d.c }, ..d }
    } else if kind == 2 {
        Draft { c: CharacterView { flavour: d.c.flavour + with_newlines(b), ..d.c }, ..d }
    } else if kind == 3 {
        Draft { c: CharacterView { examples: d.c.examples + b, ..d.c }, ..d }
    } else if kind == 4 {
        Draft { c: CharacterView { how_to_run: d.c.how_to_run + b, ..d.c }, ..d }
    } else {
        Draft { c: CharacterView { advice: d.c.advice + b, ..d.c }, ..d }
    }
}

/// A `wakes night relation other` line: the night order of `other` on that
/// night, a tenth before or after.
pub open spec fn wakes_step(d: Draft, v: Seq<char>, line: usize, t: Seq<CharacterView>) -> Result<
    Draft,
    ParseErrorView,
> {
    let parts = split_all(v, ' ');
    if parts.len() < 3 {
        Err(ParseErrorView::InvalidWakes { line })
    } else {
        match lookup(t, parts[2]) {
            None => Err(ParseErrorView::UnknownReference { line, id: parts[2] }),
            Some(o) => {
                let off: int = if parts[1] == "before"@ {
                    -1
                } else if parts[1] == "after"@ {
                    1
                } else {
                    0
                };
                if off == 0 {
                    Err(ParseErrorView::InvalidWakes { line })
                } else if parts[0] == "first"@ {
                    Ok(Draft { c: CharacterView { first_night: shift(o.first_night, off), ..d.c }, ..d })
                } else if parts[0] == "other"@ {
                    Ok(Draft { c: CharacterView { other_night: shift(o.other_night, off), ..d.c }, ..d })
                } else if parts[0] == "every"@ {
                    Ok(
                        Draft {
                            c: CharacterView {
                                first_night: shift(o.first_night, off),
                                other_night: shift(o.other_night, off),
                                ..d.c
                            },
                            ..d
                        },
                    )
                } else {
                    Err(ParseErrorView::InvalidWakes { line })
                }
            },
        }
    }
}

/// A `count text` reminder value added to `existing`.
pub open spec fn reminder_step(existing: Seq<Seq<char>>, v: Seq<char>, line: usize) -> Result<
    Seq<Seq<char>>,
    ParseErrorView,
> {
    match split_once(v, ' ') {
        None => Ok(existing),
        Some((count, text)) => match parse_i32_spec(count) {
            None => Err(ParseErrorView::InvalidCount { line }),
            Some(n) => Ok(existing + copies(text, n)),
        },
    }
}

/// A `key value` line other than `overview`.
pub open spec fn kv_step(d: Draft, k: Seq<char>, v: Seq<char>, line: usize, t: Seq<CharacterView>) -> Result<
    Draft,
    ParseErrorView,
> {
    if k == "reminder"@ {
        match reminder_step(d.c.reminders, v, line) {
            Ok(r) => Ok(Draft { c: CharacterView { reminders: r, ..d.c }, ..d }),
            Err(e) => Err(e),
        }
    } else if k == "globalreminder"@ {
        match reminder_step(d.c.reminders_global, v, line) {
            Ok(r) => Ok(Draft { c: CharacterView { reminders_global: r, ..d.c }, ..d }),
            Err(e) => Err(e),
        }
    } else if k == "image"@ {
        Ok(Draft { c: CharacterView { image: split_all(v, ' '), ..d.c }, ..d })
    } else if k == "firstnight"@ {
        Ok(Draft { c: CharacterView { first_night_reminder: v, ..d.c }, ..d })
    } else if k == "othernight"@ {
        Ok(Draft { c: CharacterView { other_night_reminder: v, ..d.c }, ..d })
    } else if k == "everynight"@ {
        Ok(
            Draft {
                c: CharacterView { first_night_reminder: v, other_night_reminder: v, ..d.c },
                ..d
            },
        )
    } else if k == "wakes"@ {
        wakes_step(d, v, line, t)
    } else if k == "requires"@ {
        Ok(
            Draft {
                c: CharacterView { required_characters: d.c.required_characters.push(v), ..d.c },
                ..d
            },
        )
    } else if k == "card"@ {
        Ok(Draft { sp: AppSpecialView { cards: d.sp.cards.push(v), ..d.sp }, ..d })
    } else if k == "jinx"@ {
        match split_once(v, ' ') {
            Some((id, reason)) => Ok(
                Draft {
                    c: CharacterView {
                        jinxes: d.c.jinxes.push(JinxView { id, reason }),
                        ..d.c
                    },
                    ..d
                },
            ),
            None => Err(ParseErrorView::InvalidJinx { line }),
        }
    } else {
        Err(ParseErrorView::InvalidKey { line })
    }
}

/// The lines of a unit from index `i` on, read into `d`. A line that is no
/// flag, opens no block and holds no space is passed over.
pub open spec fn parse_body(ls: Seq<Seq<char>>, i: int, d: Draft, t: Seq<CharacterView>) -> Result<
    Draft,
    ParseErrorView,
>
    decreases ls.len() - i,
{
    if i < 0 || i >= ls.len() {
        Ok(d)
    } else {
        let l = ls[i];
        proof {
            lemma_block_end(ls, i + 1);
        }
        match flag_step(d, l) {
            Some(d2) => parse_body(ls, i + 1, d2, t),
            None => if block_kind(l) != 0 {
                let b = ls.subrange(i + 1, block_end(ls, i + 1));
                parse_body(ls, after_block(ls, i + 1), add_block(d, block_kind(l), b), t)
            } else {
                match split_once(l, ' ') {
                    None => parse_body(ls, i + 1, d, t),
                    Some((k, v)) => if k == "overview"@ {
                        let b = ls.subrange(i + 1, block_end(ls, i + 1));
                        let d2 = Draft {
                            c: CharacterView {
                                overview_short: v,
                                overview_long: d.c.overview_long + b,
                                ..d.c
                            },
                            ..d
                        };
                        parse_body(ls, after_block(ls, i + 1), d2, t)
                    } else {
                        match kv_step(d, k, v, (i + 1) as usize, t) {
                            Ok(d2) => parse_body(ls, i + 1, d2, t),
                            Err(e) => Err(e),
                        }
                    },
                }
            },
        }
    }
}

/// The draft before the fourth line: name, ability and default image set,
/// everything else empty.
pub open spec fn init_draft(
    id: Seq<char>,
    name: Seq<char>,
    ability: Seq<char>,
    image: Seq<Seq<char>>,
) -> Draft {
    Draft {
        c: CharacterView {
            id,
            name,
            team: Team::Special,
            ability,
            reminders: Seq::empty(),
            reminders_global: Seq::empty(),
            first_night_reminder: Seq::empty(),
            other_night_reminder: Seq::empty(),
            first_night: 0,
            other_night: 0,
            setup: false,
            official: false,
            patched: false,
            flavour: Seq::empty(),
            overview_short: Seq::empty(),
            overview_long: Seq::empty(),
            examples: Seq::empty(),
            how_to_run: Seq::empty(),
            advice: Seq::empty(),
            attribution: Seq::empty(),
            image,
            special: None,
            jinxes: Seq::empty(),
            required_characters: Seq::empty(),
        },
        sp: AppSpecialView::empty(),
    }
}

/// The record made of a fully read draft: flavour and short overview trimmed,
/// special signals kept only if any is set.
pub open spec fn finish(d: Draft, team: Team) -> CharacterView {
    CharacterView {
        team,
        flavour: trim(d.c.flavour),
        overview_short: trim(d.c.overview_short),
        special: if d.sp.any() {
            Some(d.sp)
        } else {
            None
        },
        ..d.c
    }
}

/// The character that a unit describes. Its id is the ASCII lower case of
/// `stem`; `image` is its image unless an `image` line says otherwise.
pub open spec fn parse_character(
    stem: Seq<char>,
    text: Seq<char>,
    image: Seq<Seq<char>>,
    t: Seq<CharacterView>,
) -> Result<CharacterView, ParseErrorView> {
    let ls = lines(text);
    if ls.len() < 1 {
        Err(ParseErrorView::MissingLine { line: 1 })
    } else if ls.len() < 2 {
        Err(ParseErrorView::MissingLine { line: 2 })
    } else if ls.len() < 3 {
        Err(ParseErrorView::MissingLine { line: 3 })
    } else {
        let id = lower_ascii_all(stem);
        match parse_body(ls, 3, init_draft(id, ls[0], ls[2], image), t) {
            Err(e) => Err(e),
            Ok(d) => match team_of(ls[1]) {
                None => Err(ParseErrorView::InvalidTeam { line: 2 }),
                Some(team) => Ok(finish(d, team)),
            },
        }
    }
}

impl Team {
    /// The team named exactly by `l`.
    pub fn parse(l: &Vec<char>) -> (r: Option<Team>)
        ensures
            r == team_of(l@),
    {
        if is_word(l, "Townsfolk") {
            Some(Team::Townsfolk)
        } else if is_word(l, "Outsider") {
            Some(Team::Outsider)
        } else if is_word(l, "Minion") {
            Some(Team::Minion)
        } else if is_word(l, "Demon") {
            Some(Team::Demon)
        } else if is_word(l, "Traveller") {
            Some(Team::Traveller)
        } else if is_word(l, "Fabled") {
            Some(Team::Fabled)
        } else if is_word(l, "Special") {
            Some(Team::Special)
        } else {
            None
        }
    }
}

/// Moves `n` a tenth up or down, held within the range of `i64`.
fn shift_by_tenth(n: i64, up: bool) -> (r: i64)
    ensures
        r == shift(n, if up { 1 } else { -1 }),
{
    if up {
        if n == i64::MAX {
            n
        } else {
            n + 1
        }
    } else {
        if n == i64::MIN {
            n
        } else {
            n - 1
        }
    }
}

/// Appends the strings of `src` to `dst`.
pub fn push_all(dst: &mut Vec<String>, src: Vec<String>)
    ensures
        strs(final(dst)@) == strs(old(dst)@) + strs(src@),
{
    let mut i: usize = 0;
    while i < src.len()
        invariant
            i <= src@.len(),
            strs(dst@) == strs(old(dst)@) + strs(src@.subrange(0, i as int)),
        decreases src@.len() - i,
    {
        let ghost before = strs(dst@);
        dst.push(src[i].clone());
        assert(strs(dst@) == before.push(src@[i as int]@));
        assert(strs(src@.subrange(0, i + 1)) == strs(src@.subrange(0, i as int)).push(src@[i as int]@));
        i = i + 1;
    }
    assert(src@.subrange(0, src@.len() as int) == src@);
}

/// The lines of the block that starts at `j`, and the index after it.
pub(crate) fn read_block(ls: &Vec<Vec<char>>, j: usize) -> (r: (Vec<String>, usize))
    requires
        j <= ls@.len(),
    ensures
        strs(r.0@) == chars_seqs(ls@).subrange(j as int, block_end(chars_seqs(ls@), j as int)),
        r.1 == after_block(chars_seqs(ls@), j as int),
{
    let ghost lv = chars_seqs(ls@);
    let mut out: Vec<String> = Vec::new();
    let mut k: usize = j;
    while k < ls.len() && ls[k].len() != 0
        invariant
            j <= k <= ls@.len(),
            lv == chars_seqs(ls@),
            block_end(lv, j as int) == block_end(lv, k as int),
            strs(out@) == lv.subrange(j as int, k as int),
        decreases ls@.len() - k,
    {
        let ghost before = strs(out@);
        out.push(crate::text::string_of(ls[k].as_slice()));
        assert(strs(out@) == before.push(lv[k as int]));
        assert(lv.subrange(j as int, k + 1) == lv.subrange(j as int, k as int).push(lv[k as int]));
        k = k + 1;
    }
    if k < ls.len() {
        (out, k + 1)
    } else {
        (out, k)
    }
}

/// Appends each line of `b` to `dst`, each followed by a newline.
fn push_lines(dst: &mut String, b: &Vec<String>)
    ensures
        final(dst)@ == old(dst)@ + with_newlines(strs(b@)),
{
    let mut i: usize = 0;
    while i < b.len()
        invariant
            i <= b@.len(),
            dst@ == old(dst)@ + with_newlines(strs(b@.subrange(0, i as int))),
        decreases b@.len() - i,
    {
        let ghost before = dst@;
        dst.append(b[i].as_str());
        dst.append("\n");
        proof {
            reveal_strlit("\n");
            let p = strs(b@.subrange(0, i + 1));
            assert(p.drop_last() == strs(b@.subrange(0, i as int)));
            assert(p.last() == b@[i as int]@);
        }
        assert(dst@ == old(dst)@ + with_newlines(strs(b@.subrange(0, i + 1))));
        i = i + 1;
    }
    assert(b@.subrange(0, b@.len() as int) == b@);
}

/// Applies `l` if it is a bare flag; tells whether it was one.
fn apply_flag(draft: &mut Character, special: &mut AppSpecial, l: &Vec<char>) -> (r: bool)
    ensures
        match flag_step(draft_view(*old(draft), *old(special)), l@) {
            Some(d) => r && draft_view(*final(draft), *final(special)) == d,
            None => !r && *final(draft) == *old(draft) && *final(special) == *old(special),
        },
{
    if is_word(l, "setup") {
        draft.setup = true;
    } else if is_word(l, "bagdisabled") {
        special.bag_disabled = true;
    } else if is_word(l, "bagduplicate") {
        special.bag_duplicate = true;
    } else if is_word(l, "grimoire") {
        special.grimoire = true;
    } else if is_word(l, "replacereveal") {
        special.replace_reveal = true;
    } else if is_word(l, "grimoire_global_demon") {
        special.grimoire_global_demon = true;
    } else {
        return false;
    }
    true
}

/// Which block `l` opens (see `block_kind`).
fn block_kind_of(l: &Vec<char>) -> (r: u8)
    ensures
        r == block_kind(l@),
{
    if is_word(l, "attribution") {
        1
    } else if is_word(l, "flavour") || is_word(l, "flavor") {
        2
    } else if is_word(l, "examples") {
        3
    } else if is_word(l, "howtorun") {
        4
    } else if is_word(l, "advice") {
        5
    } else {
        0
    }
}

/// Adds the lines of a block of kind `kind` to the draft.
fn apply_block(draft: &mut Character, kind: u8, b: Vec<String>)
    requires
        1 <= kind <= 5,
    ensures
        final(draft)@ == add_block(
            Draft { c: old(draft)@, sp: AppSpecialView::empty() },
            kind as int,
            strs(b@),
        ).c,
{
    if kind == 1 {
        push_all(&mut draft.attribution, b);
    } else if kind == 2 {
        push_lines(&mut draft.flavour, &b);
    } else if kind == 3 {
        push_all(&mut draft.examples, b);
    } else if kind == 4 {
        push_all(&mut draft.how_to_run, b);
    } else {
        push_all(&mut draft.advice, b);
    }
}

/// Adds the tokens of a `count text` reminder value to `dst`.
fn add_reminders(dst: &mut Vec<String>, v: &Vec<char>, line: usize) -> (r: Result<(), ParseError>)
    ensures
        match reminder_step(strs(old(dst)@), v@, line) {
            Ok(rs) => r is Ok && strs(final(dst)@) == rs,
            Err(e) => r is Err && r->Err_0@ == e,
        },
{
    match split_once_space(v) {
        None => Ok(()),
        Some((count, text)) => match parse_i32(&count) {
            None => Err(ParseError::InvalidCount { line }),
            Some(n) => {
                let token = string_of(text.as_slice());
                let mut k: i32 = 0;
                while k < n
                    invariant
                        0 <= k,
                        n > 0 ==> k <= n,
                        n <= 0 ==> k == 0,
                        token@ == text@,
                        strs(dst@) == strs(old(dst)@) + copies(text@, k as int),
                    decreases n - k,
                {
                    let ghost before = strs(dst@);
                    dst.push(token.clone());
                    assert(copies(text@, k + 1) == copies(text@, k as int).push(text@));
                    assert(strs(dst@) == before.push(token@));
                    k = k + 1;
                }
                assert(copies(text@, k as int) =~= copies(text@, n as int));
                Ok(())
            },
        },
    }
}

/// Applies a `wakes` value.
fn apply_wakes(draft: &mut Character, v: &Vec<char>, line: usize, t: &CharacterTable) -> (r: Result<
    (),
    ParseError,
>)
    ensures
        match wakes_step(Draft { c: old(draft)@, sp: AppSpecialView::empty() }, v@, line, t@) {
            Ok(d) => r is Ok && final(draft)@ == d.c,
            Err(e) => r is Err && r->Err_0@ == e,
        },
{
    let parts = split_spaces(v);
    if parts.len() < 3 {
        return Err(ParseError::InvalidWakes { line });
    }
    let other = match t.get_chars(&parts[2]) {
        None => {
            return Err(ParseError::UnknownReference { line, id: string_of(parts[2].as_slice()) });
        },
        Some(o) => o,
    };
    let up = if is_word(&parts[1], "before") {
        false
    } else if is_word(&parts[1], "after") {
        true
    } else {
        return Err(ParseError::InvalidWakes { line });
    };
    if is_word(&parts[0], "first") {
        draft.first_night = shift_by_tenth(other.first_night, up);
    } else if is_word(&parts[0], "other") {
        draft.other_night = shift_by_tenth(other.other_night, up);
    } else if is_word(&parts[0], "every") {
        draft.first_night = shift_by_tenth(other.first_night, up);
        draft.other_night = shift_by_tenth(other.other_night, up);
    } else {
        return Err(ParseError::InvalidWakes { line });
    }
    Ok(())
}

/// Applies a `key value` line other than `overview`.
fn apply_key_value(
    draft: &mut Character,
    special: &mut AppSpecial,
    k: &Vec<char>,
    v: &Vec<char>,
    line: usize,
    t: &CharacterTable,
) -> (r: Result<(), ParseError>)
    ensures
        match kv_step(draft_view(*old(draft), *old(special)), k@, v@, line, t@) {
            Ok(d) => r is Ok && draft_view(*final(draft), *final(special)) == d,
            Err(e) => r is Err && r->Err_0@ == e,
        },
{
    let ghost d0 = draft_view(*draft, *special);
    if is_word(k, "reminder") {
        add_reminders(&mut draft.reminders, v, line)
    } else if is_word(k, "globalreminder") {
        add_reminders(&mut draft.reminders_global, v, line)
    } else if is_word(k, "image") {
        let parts = split_spaces(v);
        let mut image: Vec<String> = Vec::new();
        let mut i: usize = 0;
        while i < parts.len()
            invariant
                i <= parts@.len(),
                strs(image@) == chars_seqs(parts@).subrange(0, i as int),
            decreases parts@.len() - i,
        {
            let ghost before = strs(image@);
            image.push(string_of(parts[i].as_slice()));
            assert(strs(image@) == before.push(parts@[i as int]@));
            assert(chars_seqs(parts@).subrange(0, i + 1) == chars_seqs(parts@).subrange(
                0,
                i as int,
            ).push(parts@[i as int]@));
            i = i + 1;
        }
        assert(chars_seqs(parts@).subrange(0, parts@.len() as int) == chars_seqs(parts@));
        draft.image = image;
        Ok(())
    } else if is_word(k, "firstnight") {
        draft.first_night_reminder = string_of(v.as_slice());
        Ok(())
    } else if is_word(k, "othernight") {
        draft.other_night_reminder = string_of(v.as_slice());
        Ok(())
    } else if is_word(k, "everynight") {
        draft.first_night_reminder = string_of(v.as_slice());
        draft.other_night_reminder = string_of(v.as_slice());
        Ok(())
    } else if is_word(k, "wakes") {
        apply_wakes(draft, v, line, t)
    } else if is_word(k, "requires") {
        let ghost before = strs(draft.required_characters@);
        draft.required_characters.push(string_of(v.as_slice()));
        assert(strs(draft.required_characters@) == before.push(v@));
        Ok(())
    } else if is_word(k, "card") {
        let ghost before = strs(special.cards@);
        special.cards.push(string_of(v.as_slice()));
        assert(strs(special.cards@) == before.push(v@));
        Ok(())
    } else if is_word(k, "jinx") {
        match split_once_space(v) {
            Some((id, reason)) => {
                let ghost before = crate::character::jinx_views(draft.jinxes@);
                let j = Jinx { id: string_of(id.as_slice()), reason: string_of(reason.as_slice()) };
                draft.jinxes.push(j);
                assert(crate::character::jinx_views(draft.jinxes@) == before.push(
                    JinxView { id: id@, reason: reason@ },
                ));
                Ok(())
            },
            None => Err(ParseError::InvalidJinx { line }),
        }
    } else {
        Err(ParseError::InvalidKey { line })
    }
}

impl Character {
    /// Reads a character unit; an error names the unit by `stem`. The id is
    /// the ASCII lower case of `stem`, the unit's name; `image` stands unless an `image` line replaces it;
    /// `character_list` holds the characters that `wakes` lines may name.
    pub fn from_source(
        stem: &str,
        source: &str,
        image: Vec<String>,
        character_list: &CharacterTable,
    ) -> (r: Result<Character, SourceError>)
        ensures
            match parse_character(stem@, source@, strs(image@), character_list@) {
                Ok(c) => r is Ok && r->Ok_0@ == c,
                Err(e) => r is Err && r->Err_0.unit@ == stem@ && r->Err_0.error@ == e,
            },
    {
        match Character::read_unit(stem, source, image, character_list) {
            Ok(c) => Ok(c),
            Err(e) => Err(SourceError::new(stem, e)),
        }
    }

    fn read_unit(
        stem: &str,
        source: &str,
        image: Vec<String>,
        character_list: &CharacterTable,
    ) -> (r: Result<Character, ParseError>)
        ensures
            match parse_character(stem@, source@, strs(image@), character_list@) {
                Ok(c) => r is Ok && r->Ok_0@ == c,
                Err(e) => r is Err && r->Err_0@ == e,
            },
    {
        let ghost img = strs(image@);
        let text = to_chars(source);
        let ls = split_lines(&text);
        let ghost lv = chars_seqs(ls@);
        assert(lv == lines(source@));
        if ls.len() < 1 {
            return Err(ParseError::MissingLine { line: 1 });
        }
        if ls.len() < 2 {
            return Err(ParseError::MissingLine { line: 2 });
        }
        if ls.len() < 3 {
            return Err(ParseError::MissingLine { line: 3 });
        }
        let id = ascii_lowercase(&to_chars(stem));
        let mut draft = Character {
            id: string_of(id.as_slice()),
            name: string_of(ls[0].as_slice()),
            team: Team::Special,
            ability: string_of(ls[2].as_slice()),
            reminders: Vec::new(),
            reminders_global: Vec::new(),
            first_night_reminder: String::new(),
            other_night_reminder: String::new(),
            first_night: 0,
            other_night: 0,
            setup: false,
            official: false,
            patched: false,
            flavour: String::new(),
            overview_short: String::new(),
            overview_long: Vec::new(),
            examples: Vec::new(),
            how_to_run: Vec::new(),
            advice: Vec::new(),
            attribution: Vec::new(),
            image,
            special: None,
            jinxes: Vec::new(),
            required_characters: Vec::new(),
        };
        let mut special = AppSpecial::new();
        let ghost init = init_draft(
            lower_ascii_all(stem@),
            lv[0],
            lv[2],
            strs(draft.image@),
        );
        assert(draft@.reminders =~= Seq::<Seq<char>>::empty());
        assert(draft@.reminders_global =~= Seq::<Seq<char>>::empty());
        assert(draft@.overview_long =~= Seq::<Seq<char>>::empty());
        assert(draft@.examples =~= Seq::<Seq<char>>::empty());
        assert(draft@.how_to_run =~= Seq::<Seq<char>>::empty());
        assert(draft@.advice =~= Seq::<Seq<char>>::empty());
        assert(draft@.attribution =~= Seq::<Seq<char>>::empty());
        assert(draft@.jinxes =~= Seq::<JinxView>::empty());
        assert(draft@.required_characters =~= Seq::<Seq<char>>::empty());
        assert(draft_view(draft, special) == init);
        let ghost target = parse_body(lv, 3, init, character_list@);
        let mut i: usize = 3;
        while i < ls.len()
            invariant
                3 <= i <= ls@.len(),
                lv == chars_seqs(ls@),
                lv == lines(source@),
                img == strs(image@),
                init == init_draft(lower_ascii_all(stem@), lv[0], lv[2], img),
                target == parse_body(lv, 3, init, character_list@),
                parse_body(lv, i as int, draft_view(draft, special), character_list@) == target,
            decreases ls@.len() - i,
        {
            let l = &ls[i];
            proof {
                lemma_block_end(lv, i + 1);
            }
            if apply_flag(&mut draft, &mut special, l) {
                i = i + 1;
            } else {
                let kind = block_kind_of(l);
                if kind != 0 {
                    let (b, next) = read_block(&ls, i + 1);
                    apply_block(&mut draft, kind, b);
                    i = next;
                } else {
                    match split_once_space(l) {
                        None => {
                            i = i + 1;
                        },
                        Some((k, v)) => {
                            if is_word(&k, "overview") {
                                draft.overview_short = string_of(v.as_slice());
                                let (b, next) = read_block(&ls, i + 1);
                                push_all(&mut draft.overview_long, b);
                                i = next;
                            } else {
                                match apply_key_value(
                                    &mut draft,
                                    &mut special,
                                    &k,
                                    &v,
                                    i + 1,
                                    character_list,
                                ) {
                                    Ok(()) => {
                                        i = i + 1;
                                    },
                                    Err(e) => {
                                        return Err(e);
                                    },
                                }
                            }
                        },
                    }
                }
            }
        }
        match Team::parse(&ls[1]) {
            None => Err(ParseError::InvalidTeam { line: 2 }),
            Some(team) => {
                let ghost d = draft_view(draft, special);
                draft.team = team;
                draft.flavour = string_of(trim_chars(&to_chars(draft.flavour.as_str())).as_slice());
                draft.overview_short = string_of(
                    trim_chars(&to_chars(draft.overview_short.as_str())).as_slice(),
                );
                draft.special = if special.any() {
                    Some(special)
                } else {
                    None
                };
                Ok(draft)
            },
        }
    }
}

proof fn lemma_lower_ascii_twice(s: Seq<char>)
    ensures
        lower_ascii_all(lower_ascii_all(s)) == lower_ascii_all(s),
{
    assert forall|i: int| 0 <= i < s.len() implies lower_ascii(lower_ascii(s[i])) == lower_ascii(
        s[i],
    ) by {
        let u = s[i] as u32;
        if 65 <= u <= 90 {
            let b = (u + 32) as u8;
            assert((b as char) as u32 == b as u32);
        }
    }
    assert(lower_ascii_all(lower_ascii_all(s)) =~= lower_ascii_all(s));
}

/// Parsing is stable: a unit read again under the id of the record it gave
/// yields the identical record.
pub proof fn lemma_reparse_same_record(
    stem: Seq<char>,
    text: Seq<char>,
    image: Seq<Seq<char>>,
    t: Seq<CharacterView>,
)
    requires
        parse_character(stem, text, image, t) is Ok,
    ensures
        parse_character(parse_character(stem, text, image, t)->Ok_0.id, text, image, t)
            == parse_character(stem, text, image, t),
{
    lemma_lower_ascii_twice(stem);
    let ls = lines(text);
    let d0 = init_draft(lower_ascii_all(stem), ls[0], ls[2], image);
    lemma_parse_body_keeps_id(ls, 3, d0, t);
}

/// Reading the lines of a unit never changes the id of the draft.
pub proof fn lemma_parse_body_keeps_id(ls: Seq<Seq<char>>, i: int, d: Draft, t: Seq<CharacterView>)
    requires
        0 <= i,
    ensures
        parse_body(ls, i, d, t) is Ok ==> parse_body(ls, i, d, t)->Ok_0.c.id == d.c.id,
    decreases ls.len() - i,
{
    if i < ls.len() {
        let l = ls[i];
        lemma_block_end(ls, i + 1);
        match flag_step(d, l) {
            Some(d2) => lemma_parse_body_keeps_id(ls, i + 1, d2, t),
            None => if block_kind(l) != 0 {
                let b = ls.subrange(i + 1, block_end(ls, i + 1));
                lemma_parse_body_keeps_id(ls, after_block(ls, i + 1), add_block(d, block_kind(l), b), t);
            } else {
                match split_once(l, ' ') {
                    None => lemma_parse_body_keeps_id(ls, i + 1, d, t),
                    Some((k, v)) => if k == "overview"@ {
                        let b = ls.subrange(i + 1, block_end(ls, i + 1));
                        let d2 = Draft {
                            c: CharacterView {
                                overview_short: v,
                                overview_long: d.c.overview_long + b,
                                ..d.c
                            },
                            ..d
                        };
                        lemma_parse_body_keeps_id(ls, after_block(ls, i + 1), d2, t);
                    } else {
                        match kv_step(d, k, v, (i + 1) as usize, t) {
                            Ok(d2) => lemma_parse_body_keeps_id(ls, i + 1, d2, t),
                            Err(e) => {},
                        }
                    },
                }
            },
        }
    }
}

} // verus!
