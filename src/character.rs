//! Characters, their teams, jinxes and special signals, with the views that
//! contracts speak of.
use vstd::prelude::*;

use crate::text::strs;

verus! {

/// The team of a character; the order of the variants is the order in which
/// teams are listed.
#[derive(Clone, Copy, Debug, PartialEq, Eq, Structural, Hash)]
pub enum Team {
    Townsfolk,
    Outsider,
    Minion,
    Demon,
    Traveller,
    Fabled,
    Special,
}

impl Team {
    /// The position of the team in the canonical order.
    pub open spec fn rank_spec(self) -> int {
        match self {
            Team::Townsfolk => 0,
            Team::Outsider => 1,
            Team::Minion => 2,
            Team::Demon => 3,
            Team::Traveller => 4,
            Team::Fabled => 5,
            Team::Special => 6,
        }
    }

    /// The position of the team in the canonical order.
    pub fn rank(&self) -> (r: u8)
        ensures
            r == self.rank_spec(),
    {
        match self {
            Team::Townsfolk => 0,
            Team::Outsider => 1,
            Team::Minion => 2,
            Team::Demon => 3,
            Team::Traveller => 4,
            Team::Fabled => 5,
            Team::Special => 6,
        }
    }
}

impl Default for Team {
    fn default() -> (r: Team)
        ensures
            r == Team::Special,
    {
        Team::Special
    }
}

/// A directed interaction rule: the character holding it interacts with the
/// character `id` as `reason` says.
#[derive(Debug)]
pub struct Jinx {
    pub id: String,
    pub reason: String,
}

pub struct JinxView {
    pub id: Seq<char>,
    pub reason: Seq<char>,
}

impl View for Jinx {
    type V = JinxView;

    open spec fn view(&self) -> JinxView {
        JinxView { id: self.id@, reason: self.reason@ }
    }
}

impl Clone for Jinx {
    fn clone(&self) -> (r: Jinx)
        ensures
            r@ == self@,
    {
        Jinx { id: self.id.clone(), reason: self.reason.clone() }
    }
}

/// The views of a sequence of jinxes.
pub open spec fn jinx_views(v: Seq<Jinx>) -> Seq<JinxView> {
    v.map_values(|j: Jinx| j@)
}

/// The fields of a signal, as key and value pairs.
pub open spec fn pair_views(v: Seq<(String, String)>) -> Seq<(Seq<char>, Seq<char>)> {
    v.map_values(|p: (String, String)| (p.0@, p.1@))
}

/// The field lists of several signals.
pub open spec fn field_lists(v: Seq<Vec<(String, String)>>) -> Seq<Seq<(Seq<char>, Seq<char>)>> {
    v.map_values(|f: Vec<(String, String)>| pair_views(f@))
}

/// A copy of the fields of a signal.
pub fn clone_fields(f: &Vec<(String, String)>) -> (r: Vec<(String, String)>)
    ensures
        pair_views(r@) == pair_views(f@),
{
    let mut out: Vec<(String, String)> = Vec::new();
    let mut i: usize = 0;
    while i < f.len()
        invariant
            i <= f@.len(),
            pair_views(out@) == pair_views(f@).subrange(0, i as int),
        decreases f@.len() - i,
    {
        let ghost before = pair_views(out@);
        let p = (f[i].0.clone(), f[i].1.clone());
        out.push(p);
        assert(pair_views(out@) =~= before.push((f@[i as int].0@, f@[i as int].1@)));
        assert(pair_views(f@).subrange(0, i + 1) =~= pair_views(f@).subrange(0, i as int).push(
            (f@[i as int].0@, f@[i as int].1@),
        ));
        i = i + 1;
    }
    assert(pair_views(f@).subrange(0, f@.len() as int) =~= pair_views(f@));
    out
}

fn clone_field_lists(v: &Vec<Vec<(String, String)>>) -> (r: Vec<Vec<(String, String)>>)
    ensures
        field_lists(r@) == field_lists(v@),
{
    let mut out: Vec<Vec<(String, String)>> = Vec::new();
    let mut i: usize = 0;
    while i < v.len()
        invariant
            i <= v@.len(),
            field_lists(out@) == field_lists(v@).subrange(0, i as int),
        decreases v@.len() - i,
    {
        let ghost before = field_lists(out@);
        let f = clone_fields(&v[i]);
        out.push(f);
        assert(field_lists(out@) =~= before.push(pair_views(v@[i as int]@)));
        assert(field_lists(v@).subrange(0, i + 1) =~= field_lists(v@).subrange(0, i as int).push(
            pair_views(v@[i as int]@),
        ));
        i = i + 1;
    }
    assert(field_lists(v@).subrange(0, v@.len() as int) =~= field_lists(v@));
    out
}

/// Flags and cards that ask the game application for special behaviour,
/// and other signals given by their fields, each value as JSON text.
#[derive(Debug)]
pub struct AppSpecial {
    pub bag_disabled: bool,
    pub bag_duplicate: bool,
    pub grimoire: bool,
    pub grimoire_global_demon: bool,
    pub cards: Vec<String>,
    pub replace_reveal: bool,
    pub others: Vec<Vec<(String, String)>>,
}

pub struct AppSpecialView {
    pub bag_disabled: bool,
    pub bag_duplicate: bool,
    pub grimoire: bool,
    pub grimoire_global_demon: bool,
    pub cards: Seq<Seq<char>>,
    pub replace_reveal: bool,
    pub others: Seq<Seq<(Seq<char>, Seq<char>)>>,
}

impl View for AppSpecial {
    type V = AppSpecialView;

    open spec fn view(&self) -> AppSpecialView {
        AppSpecialView {
            bag_disabled: self.bag_disabled,
            bag_duplicate: self.bag_duplicate,
            grimoire: self.grimoire,
            grimoire_global_demon: self.grimoire_global_demon,
            cards: strs(self.cards@),
            replace_reveal: self.replace_reveal,
            others: field_lists(self.others@),
        }
    }
}

impl AppSpecialView {
    /// No flag set and no card.
    pub open spec fn empty() -> AppSpecialView {
        AppSpecialView {
            bag_disabled: false,
            bag_duplicate: false,
            grimoire: false,
            grimoire_global_demon: false,
            cards: Seq::empty(),
            replace_reveal: false,
            others: Seq::empty(),
        }
    }

    /// Whether any flag is set or any card or other signal is given.
    pub open spec fn any(self) -> bool {
        self.bag_disabled || self.bag_duplicate || self.grimoire || self.grimoire_global_demon
            || self.replace_reveal || self.cards.len() > 0 || self.others.len() > 0
    }
}

impl Clone for AppSpecial {
    fn clone(&self) -> (r: AppSpecial)
        ensures
            r@ == self@,
    {
        AppSpecial {
            bag_disabled: self.bag_disabled,
            bag_duplicate: self.bag_duplicate,
            grimoire: self.grimoire,
            grimoire_global_demon: self.grimoire_global_demon,
            cards: self.cards.clone(),
            replace_reveal: self.replace_reveal,
            others: clone_field_lists(&self.others),
        }
    }
}

impl AppSpecial {
    /// No flag set and no card.
    pub fn new() -> (r: AppSpecial)
        ensures
            r@ == AppSpecialView::empty(),
    {
        let r = AppSpecial {
            bag_disabled: false,
            bag_duplicate: false,
            grimoire: false,
            grimoire_global_demon: false,
            cards: Vec::new(),
            replace_reveal: false,
            others: Vec::new(),
        };
        assert(r@.cards =~= Seq::<Seq<char>>::empty());
        assert(r@.others =~= Seq::<Seq<(Seq<char>, Seq<char>)>>::empty());
        r
    }

    /// Whether any flag is set or any card or other signal is given.
    pub fn any(&self) -> (r: bool)
        ensures
            r == self@.any(),
    {
        self.bag_disabled || self.bag_duplicate || self.grimoire || self.grimoire_global_demon
            || self.replace_reveal || !self.cards.is_empty() || !self.others.is_empty()
    }
}

/// A game character. Night orders are kept in tenths: `50` is the fifth
/// place, `51` directly after it and `49` directly before it; `0` means that
/// the character does not wake that night.
#[derive(Debug)]
pub struct Character {
    pub id: String,
    pub name: String,
    pub team: Team,
    pub ability: String,
    pub reminders: Vec<String>,
    pub reminders_global: Vec<String>,
    pub first_night_reminder: String,
    pub other_night_reminder: String,
    pub first_night: i64,
    pub other_night: i64,
    pub setup: bool,
    pub official: bool,
    pub patched: bool,
    pub flavour: String,
    pub overview_short: String,
    pub overview_long: Vec<String>,
    pub examples: Vec<String>,
    pub how_to_run: Vec<String>,
    pub advice: Vec<String>,
    pub attribution: Vec<String>,
    pub image: Vec<String>,
    pub special: Option<AppSpecial>,
    pub jinxes: Vec<Jinx>,
    pub required_characters: Vec<String>,
}

pub struct CharacterView {
    pub id: Seq<char>,
    pub name: Seq<char>,
    pub team: Team,
    pub ability: Seq<char>,
    pub reminders: Seq<Seq<char>>,
    pub reminders_global: Seq<Seq<char>>,
    pub first_night_reminder: Seq<char>,
    pub other_night_reminder: Seq<char>,
    pub first_night: i64,
    pub other_night: i64,
    pub setup: bool,
    pub official: bool,
    pub patched: bool,
    pub flavour: Seq<char>,
    pub overview_short: Seq<char>,
    pub overview_long: Seq<Seq<char>>,
    pub examples: Seq<Seq<char>>,
    pub how_to_run: Seq<Seq<char>>,
    pub advice: Seq<Seq<char>>,
    pub attribution: Seq<Seq<char>>,
    pub image: Seq<Seq<char>>,
    pub special: Option<AppSpecialView>,
    pub jinxes: Seq<JinxView>,
    pub required_characters: Seq<Seq<char>>,
}

/// The view of an optional set of special signals.
pub open spec fn special_view(s: Option<AppSpecial>) -> Option<AppSpecialView> {
    match s {
        Some(a) => Some(a@),
        None => None,
    }
}

impl View for Character {
    type V = CharacterView;

    open spec fn view(&self) -> CharacterView {
        CharacterView {
            id: self.id@,
            name: self.name@,
            team: self.team,
            ability: self.ability@,
            reminders: strs(self.reminders@),
            reminders_global: strs(self.reminders_global@),
            first_night_reminder: self.first_night_reminder@,
            other_night_reminder: self.other_night_reminder@,
            first_night: self.first_night,
            other_night: self.other_night,
            setup: self.setup,
            official: self.official,
            patched: self.patched,
            flavour: self.flavour@,
            overview_short: self.overview_short@,
            overview_long: strs(self.overview_long@),
            examples: strs(self.examples@),
            how_to_run: strs(self.how_to_run@),
            advice: strs(self.advice@),
            attribution: strs(self.attribution@),
            image: strs(self.image@),
            special: special_view(self.special),
            jinxes: jinx_views(self.jinxes@),
            required_characters: strs(self.required_characters@),
        }
    }
}

/// The views of a sequence of characters.
pub open spec fn character_views(v: Seq<Character>) -> Seq<CharacterView> {
    v.map_values(|c: Character| c@)
}

/// The ids of a sequence of characters.
pub open spec fn ids_of(v: Seq<CharacterView>) -> Seq<Seq<char>> {
    v.map_values(|c: CharacterView| c.id)
}

impl Clone for Character {
    fn clone(&self) -> (r: Character)
        ensures
            r@ == self@,
    {
        let special = match &self.special {
            Some(s) => Some(s.clone()),
            None => None,
        };
        let jinxes = self.jinxes.clone();
        assert(jinx_views(jinxes@) =~= jinx_views(self.jinxes@));
        let r = Character {
            id: self.id.clone(),
            name: self.name.clone(),
            team: self.team,
            ability: self.ability.clone(),
            reminders: self.reminders.clone(),
            reminders_global: self.reminders_global.clone(),
            first_night_reminder: self.first_night_reminder.clone(),
            other_night_reminder: self.other_night_reminder.clone(),
            first_night: self.first_night,
            other_night: self.other_night,
            setup: self.setup,
            official: self.official,
            patched: self.patched,
            flavour: self.flavour.clone(),
            overview_short: self.overview_short.clone(),
            overview_long: self.overview_long.clone(),
            examples: self.examples.clone(),
            how_to_run: self.how_to_run.clone(),
            advice: self.advice.clone(),
            attribution: self.attribution.clone(),
            image: self.image.clone(),
            special,
            jinxes,
            required_characters: self.required_characters.clone(),
        };
        assert(r@.reminders =~= self@.reminders);
        assert(r@.reminders_global =~= self@.reminders_global);
        assert(r@.overview_long =~= self@.overview_long);
        assert(r@.examples =~= self@.examples);
        assert(r@.how_to_run =~= self@.how_to_run);
        assert(r@.advice =~= self@.advice);
        assert(r@.attribution =~= self@.attribution);
        assert(r@.image =~= self@.image);
        assert(r@.required_characters =~= self@.required_characters);
        r
    }
}

} // verus!
