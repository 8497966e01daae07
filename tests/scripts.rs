use script_gen::character::{Character, Team};
use script_gen::error::ParseError;
use script_gen::interchange::{is_false, is_zero, Entry};
use script_gen::patch::{Patch, PatchTable};
use script_gen::script::Script;
use script_gen::table::{CharacterTable, ImageTable};

fn add(table: &mut CharacterTable, stem: &str, text: &str) {
    let c = Character::from_source(stem, text, vec![], table).unwrap();
    table.insert(c);
}

fn ids(script: &Script) -> Vec<String> {
    script.characters.iter().map(|c| c.id.clone()).collect()
}

fn base_table() -> CharacterTable {
    let mut t = CharacterTable::new();
    add(&mut t, "imp", "Imp\nDemon\nEach night*, choose a player: they die.");
    add(&mut t, "empath", "Empath\nTownsfolk\nEach night, you learn how many of your 2 alive neighbours are evil.");
    add(&mut t, "fortuneteller", "Fortune Teller\nTownsfolk\nEach night, choose 2 players: you learn if either is a Demon.");
    add(&mut t, "chef", "Chef\nTownsfolk\nYou start knowing how many pairs of evil players there are.");
    add(&mut t, "drunk", "Drunk\nOutsider\nYou do not know you are the Drunk.");
    add(&mut t, "baron", "Baron\nMinion\nThere are extra Outsiders in play.\nrequires drunk");
    t
}

#[test]
fn each_night_abilities_sort_by_length_then_name() {
    let mut t = CharacterTable::new();
    add(&mut t, "bb", "Bb\nTownsfolk\nEach night, you learn a lot more.");
    add(&mut t, "aa", "Aa\nTownsfolk\nEach night, you learn a lot more.");
    add(&mut t, "short", "Short\nTownsfolk\nEach night, learn.");
    let mut s = Script::from_source("script", "Test\nMe\nbb\naa\nshort", &t).unwrap();
    assert_eq!(ids(&s), vec!["bb", "aa", "short"]);
    assert!(!s.keep_order);
    s.resolve_required(&t).unwrap();
    assert_eq!(ids(&s), vec!["bb", "aa", "short"]);
    s.arrange();
    assert_eq!(ids(&s), vec!["short", "aa", "bb"]);
}

#[test]
fn default_order_puts_teams_first() {
    let t = base_table();
    let mut s = Script::from_source("script", "Name\nAuthor\nimp\nbaron\ndrunk\nempath\nchef\nfortuneteller", &t).unwrap();
    s.resolve_required(&t).unwrap();
    s.arrange();
    assert_eq!(ids(&s), vec!["chef", "fortuneteller", "empath", "drunk", "baron", "imp"]);
    for w in s.characters.windows(2) {
        assert!(w[0].team.rank() <= w[1].team.rank());
    }
    assert_eq!(s.name, "Name");
    assert_eq!(s.author, "Author");
}

#[test]
fn resolved_requirements_take_their_place() {
    let t = base_table();
    let mut s = Script::from_source("script", "Name\nAuthor\nimp\nbaron\nchef", &t).unwrap();
    assert_eq!(ids(&s), vec!["imp", "baron", "chef"]);
    s.resolve_required(&t).unwrap();
    assert_eq!(ids(&s), vec!["imp", "baron", "chef", "drunk"]);
    s.arrange();
    assert_eq!(ids(&s), vec!["chef", "drunk", "baron", "imp"]);
    s.resolve_required(&t).unwrap();
    s.arrange();
    assert_eq!(ids(&s), vec!["chef", "drunk", "baron", "imp"]);
}

#[test]
fn keeporder_rules_and_intro() {
    let t = base_table();
    let s = Script::from_source(
        "script",
        "Name\nAuthor\nkeeporder\nimp\n\nbootlegger One rule\nintro\nHello\nthere\n\nchef",
        &t,
    )
    .unwrap();
    assert_eq!(ids(&s), vec!["imp", "chef"]);
    assert!(s.keep_order);
    let mut s = s;
    s.resolve_required(&t).unwrap();
    s.arrange();
    assert_eq!(ids(&s), vec!["imp", "chef"]);
    assert_eq!(s.bootlegger_rules, vec!["One rule".to_string()]);
    assert_eq!(s.almanac.intro, vec!["Hello".to_string(), "there".to_string()]);
    let meta = s.meta();
    assert_eq!(meta.id, "_meta");
    assert_eq!(meta.name, "Name");
    assert_eq!(meta.bootlegger, Some(vec!["One rule".to_string()]));
}

#[test]
fn script_errors() {
    let t = base_table();
    let e = Script::from_source("first.txt", "", &t).unwrap_err();
    assert_eq!(e.unit, "first.txt");
    assert_eq!(e.error, ParseError::MissingLine { line: 1 });
    assert_eq!(Script::from_source("script", "Only", &t).unwrap_err().error, ParseError::MissingLine { line: 2 });
    assert_eq!(
        Script::from_source("script", "N\nA\nimp\nnobody", &t).unwrap_err().error,
        ParseError::UnknownCharacter { line: 4, id: "nobody".to_string() }
    );
}

#[test]
fn requirements_resolve_to_fixed_point() {
    let mut t = base_table();
    add(&mut t, "a", "A\nTownsfolk\nYou\nrequires b");
    add(&mut t, "b", "B\nTownsfolk\nYou\nrequires c\nrequires a");
    add(&mut t, "c", "C\nTownsfolk\nYou");
    let mut s = Script::from_source("script", "N\nA\nkeeporder\nbaron\na", &t).unwrap();
    s.resolve_required(&t).unwrap();
    assert_eq!(ids(&s), vec!["baron", "a", "drunk", "b", "c"]);
    s.resolve_required(&t).unwrap();
    assert_eq!(ids(&s), vec!["baron", "a", "drunk", "b", "c"]);
}

#[test]
fn shared_requirement_added_once() {
    let mut t = base_table();
    add(&mut t, "godfather", "Godfather\nMinion\nYou start knowing\nrequires drunk");
    let mut s = Script::from_source("script", "N\nA\nkeeporder\nbaron\ngodfather", &t).unwrap();
    s.resolve_required(&t).unwrap();
    assert_eq!(ids(&s), vec!["baron", "godfather", "drunk"]);
}

#[test]
fn missing_requirement_leaves_script() {
    let mut t = base_table();
    add(&mut t, "x", "X\nTownsfolk\nYou\nrequires ghost");
    let mut s = Script::from_source("script", "N\nA\nkeeporder\nimp\nx", &t).unwrap();
    let e = s.resolve_required(&t).unwrap_err();
    assert_eq!(e, ParseError::MissingRequirement { id: "ghost".to_string(), required_by: "x".to_string() });
    assert_eq!(ids(&s), vec!["imp", "x"]);
}

#[test]
fn interchange_entries() {
    let mut t = base_table();
    let images = ImageTable::new();
    let official = Character::from_source("saint", "Saint\nOutsider\nIf you die by execution, your team loses.", vec![], &t).unwrap();
    t.add_official(official, &images);
    let mut s = Script::from_source("script", "N\nA\nsaint\nchef", &t).unwrap();
    s.resolve_required(&t).unwrap();
    s.arrange();
    let entries = s.entries();
    assert_eq!(entries.len(), 2);
    assert!(matches!(&entries[0], Entry::Record(c) if c.id == "chef"));
    assert!(matches!(&entries[1], Entry::Reference(id) if id == "saint"));
    assert!(s.meta().bootlegger.is_none());
    assert!(is_false(&false));
    assert!(!is_false(&true));
    assert!(is_zero(&0));
    assert!(!is_zero(&51));
}

#[test]
fn scripts_own_their_characters() {
    let t = base_table();
    let mut patches = PatchTable::new();
    patches.insert("chef".to_string(), Patch::from_source("patch", "replace You start knowing something else.").unwrap());
    let images = ImageTable::new();
    let mut s1 = Script::from_source("script", "N\nA\nchef", &t).unwrap();
    let s2 = Script::from_source("script", "N\nA\nchef", &t).unwrap();
    s1.apply_patches(&patches, &images);
    assert_eq!(ids(&s1), vec!["patched_chef"]);
    assert_eq!(ids(&s2), vec!["chef"]);
    assert_eq!(t.get("chef").unwrap().id, "chef");
    assert_eq!(s1.characters[0].team, Team::Townsfolk);
}
