//! Special signals for the game application, and the built-in characters
//! that mark fixed points of the night order.
use vstd::prelude::*;

use crate::character::{
    AppSpecial, AppSpecialView, Character, CharacterView, Team, clone_fields, pair_views,
};
use crate::text::{same_chars, string_of, strs, to_chars};

verus! {

/// One special behaviour that a character asks the game application for.
#[derive(Debug)]
pub enum Signal {
    BagDisabled,
    BagDuplicate,
    Grimoire,
    GrimoireGlobalDemon,
    ReplaceReveal,
    Card(String),
    /// A signal given by its fields, each value as JSON text.
    Other(Vec<(String, String)>),
}

pub enum SignalView {
    BagDisabled,
    BagDuplicate,
    Grimoire,
    GrimoireGlobalDemon,
    ReplaceReveal,
    Card(Seq<char>),
    Other(Seq<(Seq<char>, Seq<char>)>),
}

impl View for Signal {
    type V = SignalView;

    open spec fn view(&self) -> SignalView {
        match self {
            Signal::BagDisabled => SignalView::BagDisabled,
            Signal::BagDuplicate => SignalView::BagDuplicate,
            Signal::Grimoire => SignalView::Grimoire,
            Signal::GrimoireGlobalDemon => SignalView::GrimoireGlobalDemon,
            Signal::ReplaceReveal => SignalView::ReplaceReveal,
            Signal::Card(v) => SignalView::Card(v@),
            Signal::Other(f) => SignalView::Other(pair_views(f@)),
        }
    }
}

pub open spec fn signal_views(v: Seq<Signal>) -> Seq<SignalView> {
    v.map_values(|s: Signal| s@)
}

/// `x` as a one-element sequence when `b` holds, else nothing.
pub open spec fn when(b: bool, x: SignalView) -> Seq<SignalView> {
    if b {
        seq![x]
    } else {
        Seq::empty()
    }
}

/// The signals of a set of flags and cards, in their fixed order: bag
/// disabled, bag duplicate, grimoire, grimoire for the demon, replaced
/// reveal, then one card signal per card, then the other signals.
pub open spec fn signals(sp: AppSpecialView) -> Seq<SignalView> {
    when(sp.bag_disabled, SignalView::BagDisabled) + when(sp.bag_duplicate, SignalView::BagDuplicate)
        + when(sp.grimoire, SignalView::Grimoire) + when(
        sp.grimoire_global_demon,
        SignalView::GrimoireGlobalDemon,
    ) + when(sp.replace_reveal, SignalView::ReplaceReveal) + sp.cards.map_values(
        |c: Seq<char>| SignalView::Card(c),
    ) + sp.others.map_values(|f: Seq<(Seq<char>, Seq<char>)>| SignalView::Other(f))
}

/// The fields of a signal as the game application reads them, in order.
pub open spec fn signal_fields(s: SignalView) -> Seq<(Seq<char>, Seq<char>)> {
    match s {
        SignalView::BagDisabled => seq![("type"@, "selection"@), ("name"@, "bag-disabled"@)],
        SignalView::BagDuplicate => seq![("type"@, "selection"@), ("name"@, "bag-duplicate"@)],
        SignalView::Grimoire => seq![("type"@, "signal"@), ("name"@, "grimoire"@), ("time"@, "night"@)],
        SignalView::GrimoireGlobalDemon => seq![
            ("type"@, "signal"@),
            ("name"@, "grimoire"@),
            ("time"@, "night"@),
            ("global"@, "demon"@),
        ],
        SignalView::ReplaceReveal => seq![("type"@, "reveal"@), ("name"@, "replace-character"@)],
        SignalView::Card(v) => seq![("type"@, "signal"@), ("name"@, "card"@), ("value"@, v)],
        SignalView::Other(f) => f,
    }
}


fn text(s: &str) -> (r: String)
    ensures
        r@ == s@,
{
    string_of(to_chars(s).as_slice())
}

fn field(k: &str, v: &str) -> (r: (String, String))
    ensures
        r.0@ == k@,
        r.1@ == v@,
{
    (text(k), text(v))
}

impl Signal {
    /// The fields of the signal as the game application reads them, in order.
    pub fn fields(&self) -> (r: Vec<(String, String)>)
        ensures
            pair_views(r@) == signal_fields(self@),
    {
        let r = match self {
            Signal::BagDisabled => vec![field("type", "selection"), field("name", "bag-disabled")],
            Signal::BagDuplicate => vec![field("type", "selection"), field("name", "bag-duplicate")],
            Signal::Grimoire => vec![
                field("type", "signal"),
                field("name", "grimoire"),
                field("time", "night"),
            ],
            Signal::GrimoireGlobalDemon => vec![
                field("type", "signal"),
                field("name", "grimoire"),
                field("time", "night"),
                field("global", "demon"),
            ],
            Signal::ReplaceReveal => vec![field("type", "reveal"), field("name", "replace-character")],
            Signal::Card(v) => vec![field("type", "signal"), field("name", "card"), (text("value"), v.clone())],
            Signal::Other(f) => clone_fields(f),
        };
        assert(pair_views(r@) =~= signal_fields(self@));
        r
    }
}

impl AppSpecial {
    /// The signals that the flags and cards ask for, in their fixed order.
    pub fn as_serializable(&self) -> (r: Vec<Signal>)
        ensures
            signal_views(r@) == signals(self@),
    {
        let mut out: Vec<Signal> = Vec::new();
        let ghost s1 = when(self.bag_disabled, SignalView::BagDisabled);
        let ghost s2 = s1 + when(self.bag_duplicate, SignalView::BagDuplicate);
        let ghost s3 = s2 + when(self.grimoire, SignalView::Grimoire);
        let ghost s4 = s3 + when(self.grimoire_global_demon, SignalView::GrimoireGlobalDemon);
        let ghost flags = s4 + when(self.replace_reveal, SignalView::ReplaceReveal);
        if self.bag_disabled {
            out.push(Signal::BagDisabled);
        }
        assert(signal_views(out@) =~= s1);
        if self.bag_duplicate {
            out.push(Signal::BagDuplicate);
        }
        assert(signal_views(out@) =~= s2);
        if self.grimoire {
            out.push(Signal::Grimoire);
        }
        assert(signal_views(out@) =~= s3);
        if self.grimoire_global_demon {
            out.push(Signal::GrimoireGlobalDemon);
        }
        assert(signal_views(out@) =~= s4);
        if self.replace_reveal {
            out.push(Signal::ReplaceReveal);
        }
        assert(signal_views(out@) =~= flags);
        let ghost cards = strs(self.cards@).map_values(|c: Seq<char>| SignalView::Card(c));
        let mut i: usize = 0;
        while i < self.cards.len()
            invariant
                i <= self.cards@.len(),
                cards == strs(self.cards@).map_values(|c: Seq<char>| SignalView::Card(c)),
                signal_views(out@) == flags + cards.subrange(0, i as int),
            decreases self.cards@.len() - i,
        {
            let ghost before = signal_views(out@);
            out.push(Signal::Card(self.cards[i].clone()));
            assert(signal_views(out@) =~= before.push(cards[i as int]));
            assert(cards.subrange(0, i + 1) =~= cards.subrange(0, i as int).push(cards[i as int]));
            i = i + 1;
        }
        assert(cards.subrange(0, cards.len() as int) =~= cards);
        let ghost fixed = signal_views(out@);
        let ghost others = self@.others.map_values(|f: Seq<(Seq<char>, Seq<char>)>| SignalView::Other(f));
        let mut j: usize = 0;
        while j < self.others.len()
            invariant
                j <= self.others@.len(),
                others == self@.others.map_values(|f: Seq<(Seq<char>, Seq<char>)>| SignalView::Other(f)),
                signal_views(out@) == fixed + others.subrange(0, j as int),
            decreases self.others@.len() - j,
        {
            let ghost before = signal_views(out@);
            out.push(Signal::Other(clone_fields(&self.others[j])));
            assert(signal_views(out@) =~= before.push(others[j as int]));
            assert(others.subrange(0, j + 1) =~= others.subrange(0, j as int).push(others[j as int]));
            j = j + 1;
        }
        assert(others.subrange(0, others.len() as int) =~= others);
        out
    }
}

/// The canonical night orders: the ids that wake on the first night and on
/// other nights, in waking order.
#[derive(Debug)]
pub struct NightOrder {
    pub first_night: Vec<String>,
    pub other_night: Vec<String>,
}

/// The place of `id` in `order`, counting from 1; 0 if it is not there.
pub open spec fn rank_in(order: Seq<Seq<char>>, id: Seq<char>, i: int) -> int
    decreases order.len() - i,
{
    if i < 0 || i >= order.len() {
        0
    } else if order[i] == id {
        i + 1
    } else {
        rank_in(order, id, i + 1)
    }
}

/// A place as a night order in tenths, held within the range of `i64`.
pub open spec fn tenths(rank: int) -> i64 {
    if rank * 10 > i64::MAX {
        i64::MAX
    } else {
        (rank * 10) as i64
    }
}

fn night_rank(order: &Vec<String>, id: &Vec<char>) -> (r: i64)
    ensures
        r == tenths(rank_in(strs(order@), id@, 0)),
{
    let mut i: usize = 0;
    while i < order.len()
        invariant
            i <= order@.len(),
            rank_in(strs(order@), id@, 0) == rank_in(strs(order@), id@, i as int),
        decreases order@.len() - i,
    {
        if same_chars(&to_chars(order[i].as_str()), id) {
            if i as u64 >= 922337203685477580 {
                return i64::MAX;
            }
            return (i as i64 + 1) * 10;
        }
        i = i + 1;
    }
    0
}

/// The built-in character `id` named `name`, of the special team, official,
/// waking at its places in `night_order`.
pub open spec fn special_character_spec(
    id: Seq<char>,
    name: Seq<char>,
    first: Seq<Seq<char>>,
    other: Seq<Seq<char>>,
) -> CharacterView {
    CharacterView {
        id,
        name,
        team: Team::Special,
        ability: Seq::empty(),
        reminders: Seq::empty(),
        reminders_global: Seq::empty(),
        first_night_reminder: Seq::empty(),
        other_night_reminder: Seq::empty(),
        first_night: tenths(rank_in(first, id, 0)),
        other_night: tenths(rank_in(other, id, 0)),
        setup: false,
        official: true,
        patched: false,
        flavour: Seq::empty(),
        overview_short: Seq::empty(),
        overview_long: Seq::empty(),
        examples: Seq::empty(),
        how_to_run: Seq::empty(),
        advice: Seq::empty(),
        attribution: Seq::empty(),
        image: Seq::empty(),
        special: None,
        jinxes: Seq::empty(),
        required_characters: Seq::empty(),
    }
}

/// The built-in character `id` named `name`, of the special team, official,
/// waking at its places in `night_order`.
pub fn special_character(id: &str, name: &str, night_order: &NightOrder) -> (r: Character)
    ensures
        r@ == special_character_spec(
            id@,
            name@,
            strs(night_order.first_night@),
            strs(night_order.other_night@),
        ),
{
    let key = to_chars(id);
    let r = Character {
        id: text(id),
        name: text(name),
        team: Team::Special,
        ability: String::new(),
        reminders: Vec::new(),
        reminders_global: Vec::new(),
        first_night_reminder: String::new(),
        other_night_reminder: String::new(),
        first_night: night_rank(&night_order.first_night, &key),
        other_night: night_rank(&night_order.other_night, &key),
        setup: false,
        official: true,
        patched: false,
        flavour: String::new(),
        overview_short: String::new(),
        overview_long: Vec::new(),
        examples: Vec::new(),
        how_to_run: Vec::new(),
        advice: Vec::new(),
        attribution: Vec::new(),
        image: Vec::new(),
        special: None,
        jinxes: Vec::new(),
        required_characters: Vec::new(),
    };
    assert(r@.reminders =~= Seq::<Seq<char>>::empty());
    assert(r@.reminders_global =~= Seq::<Seq<char>>::empty());
    assert(r@.overview_long =~= Seq::<Seq<char>>::empty());
    assert(r@.examples =~= Seq::<Seq<char>>::empty());
    assert(r@.how_to_run =~= Seq::<Seq<char>>::empty());
    assert(r@.advice =~= Seq::<Seq<char>>::empty());
    assert(r@.attribution =~= Seq::<Seq<char>>::empty());
    assert(r@.image =~= Seq::<Seq<char>>::empty());
    assert(r@.jinxes =~= Seq::<crate::character::JinxView>::empty());
    assert(r@.required_characters =~= Seq::<Seq<char>>::empty());
    r
}

/// The built-in characters of the night order: dusk, minion info, demon info
/// and dawn.
#[derive(Debug)]
pub struct SpecialCharacters {
    pub dusk: Character,
    pub minions: Character,
    pub demon: Character,
    pub dawn: Character,
}

impl SpecialCharacters {
    /// The four built-in characters, placed by `night_order`.
    pub fn from_night_order(night_order: &NightOrder) -> (r: SpecialCharacters)
        ensures
            r.dusk@ == special_character_spec(
                "DUSK"@,
                "Dusk"@,
                strs(night_order.first_night@),
                strs(night_order.other_night@),
            ),
            r.minions@ == special_character_spec(
                "MINION"@,
                "Minion Info"@,
                strs(night_order.first_night@),
                strs(night_order.other_night@),
            ),
            r.demon@ == special_character_spec(
                "DEMON"@,
                "Demon Info"@,
                strs(night_order.first_night@),
                strs(night_order.other_night@),
            ),
            r.dawn@ == special_character_spec(
                "DAWN"@,
                "Dawn"@,
                strs(night_order.first_night@),
                strs(night_order.other_night@),
            ),
    {
        SpecialCharacters {
            dusk: special_character("DUSK", "Dusk", night_order),
            minions: special_character("MINION", "Minion Info", night_order),
            demon: special_character("DEMON", "Demon Info", night_order),
            dawn: special_character("DAWN", "Dawn", night_order),
        }
    }
}

} // verus!
