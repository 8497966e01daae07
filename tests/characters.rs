use script_gen::character::{Character, Team};
use script_gen::error::{ParseError, SourceError};
use script_gen::sort::get_sort_idx;
use script_gen::special::{special_character, NightOrder, Signal, SpecialCharacters};
use script_gen::table::{CharacterTable, ImageTable};

fn parse(stem: &str, text: &str, table: &CharacterTable) -> Result<Character, SourceError> {
    Character::from_source(stem, text, vec![], table)
}

fn table_with(chars: &[(&str, &str)]) -> CharacterTable {
    let mut table = CharacterTable::new();
    for (stem, text) in chars {
        let c = parse(stem, text, &table).unwrap();
        table.insert(c);
    }
    table
}

#[test]
fn imp_unit_parses() {
    let table = CharacterTable::new();
    let c = parse(
        "imp",
        "Imp\nDemon\nEach night*, choose a player: they die...\nreminder 1 Dead\nfirstnight 1",
        &table,
    )
    .unwrap();
    assert_eq!(c.id, "imp");
    assert_eq!(c.name, "Imp");
    assert_eq!(c.team, Team::Demon);
    assert_eq!(c.ability, "Each night*, choose a player: they die...");
    assert_eq!(c.reminders, vec!["Dead".to_string()]);
    assert_eq!(c.first_night_reminder, "1");
    assert_eq!(c.other_night_reminder, "");
    assert!(c.special.is_none());
    assert!(!c.official && !c.patched);
}

#[test]
fn wakes_after_other_character() {
    let mut table = CharacterTable::new();
    let mut washerwoman = parse("washerwoman", "Washerwoman\nTownsfolk\nYou start knowing", &table).unwrap();
    washerwoman.first_night = 50;
    table.insert(washerwoman);
    let c = parse("spy", "Spy\nMinion\nEach night, you see", &table).unwrap();
    assert_eq!(c.first_night, 0);
    let c = parse("late", "Late\nTownsfolk\nYou learn\nwakes first after washerwoman", &table).unwrap();
    assert_eq!(c.first_night, 51);
    assert_eq!(c.other_night, 0);
    let c = parse("early", "Early\nTownsfolk\nYou learn\nwakes every before washerwoman", &table).unwrap();
    assert_eq!(c.first_night, 49);
    assert_eq!(c.other_night, -1);
}

#[test]
fn wakes_chain_adds_tenths() {
    let mut table = CharacterTable::new();
    let mut first = parse("first", "First\nTownsfolk\nYou", &table).unwrap();
    first.other_night = 70;
    table.insert(first);
    let second = parse("second", "Second\nTownsfolk\nYou\nwakes other after first", &table).unwrap();
    table.insert(second);
    let third = parse("third", "Third\nTownsfolk\nYou\nwakes other after second", &table).unwrap();
    assert_eq!(third.other_night, 72);
}

#[test]
fn repeated_parse_gives_same_record() {
    let table = CharacterTable::new();
    let text = "Poisoner\nMinion\nEach night, choose a player: they are poisoned.\nreminder 1 Poisoned\nflavour\nA drop\nof this\n\njinx spy The Spy\nsetup";
    let a = parse("Poisoner", text, &table).unwrap();
    let b = parse("Poisoner", text, &table).unwrap();
    assert_eq!(format!("{:?}", a), format!("{:?}", b));
    let c = parse(&a.id, text, &table).unwrap();
    assert_eq!(format!("{:?}", a), format!("{:?}", c));
    assert_eq!(a.id, "poisoner");
}

#[test]
fn blocks_flags_and_keys() {
    let table = table_with(&[("spy", "Spy\nMinion\nYou see")]);
    let text = "Widow\nMinion\nOn your 1st night, look at the Grimoire.\nsetup\ngrimoire\ncard Widow\n\
flavor\n  A web  \nof lies \n\nattribution\nSomeone\nElse\n\nexamples\nOne\n\nhowtorun\nRun\n\nadvice\nThink\n\n\
overview Short one  \nLong a\nLong b\n\nrequires spy\njinx spy Cannot see\nglobalreminder 2 Knows\n\
everynight Wake\nimage a.png b.png\nunknownword";
    let c = parse("widow", text, &table).unwrap();
    assert!(c.setup);
    assert_eq!(c.flavour, "A web  \nof lies");
    assert_eq!(c.attribution, vec!["Someone".to_string(), "Else".to_string()]);
    assert_eq!(c.examples, vec!["One".to_string()]);
    assert_eq!(c.how_to_run, vec!["Run".to_string()]);
    assert_eq!(c.advice, vec!["Think".to_string()]);
    assert_eq!(c.overview_short, "Short one");
    assert_eq!(c.overview_long, vec!["Long a".to_string(), "Long b".to_string()]);
    assert_eq!(c.required_characters, vec!["spy".to_string()]);
    assert_eq!(c.jinxes.len(), 1);
    assert_eq!(c.jinxes[0].id, "spy");
    assert_eq!(c.jinxes[0].reason, "Cannot see");
    assert_eq!(c.reminders_global, vec!["Knows".to_string(), "Knows".to_string()]);
    assert_eq!(c.first_night_reminder, "Wake");
    assert_eq!(c.other_night_reminder, "Wake");
    assert_eq!(c.image, vec!["a.png".to_string(), "b.png".to_string()]);
    let special = c.special.as_ref().unwrap();
    assert!(special.any());
    let signals = special.as_serializable();
    assert_eq!(signals.len(), 2);
    assert!(matches!(signals[0], Signal::Grimoire));
    assert!(matches!(&signals[1], Signal::Card(v) if v == "Widow"));
}

#[test]
fn default_image_stays_without_image_line() {
    let table = CharacterTable::new();
    let c = Character::from_source("x", "X\nFabled\nAbility\r\nsetup\r\n", vec!["default.png".to_string()], &table).unwrap();
    assert_eq!(c.image, vec!["default.png".to_string()]);
    assert_eq!(c.ability, "Ability");
    assert!(c.setup);
}

#[test]
fn reminder_counts() {
    let table = CharacterTable::new();
    let c = parse("a", "A\nOutsider\nB\nreminder 3 Drunk\nreminder -2 None\nreminder +1 Plus\nreminder 0 Zero\nreminder 5", &table).unwrap();
    assert_eq!(
        c.reminders,
        vec!["Drunk".to_string(), "Drunk".to_string(), "Drunk".to_string(), "Plus".to_string()]
    );
    let e = parse("a", "A\nOutsider\nB\nreminder x Drunk", &table).unwrap_err().error;
    assert_eq!(e, ParseError::InvalidCount { line: 4 });
    let e = parse("a", "A\nOutsider\nB\nreminder 99999999999 Drunk", &table).unwrap_err().error;
    assert_eq!(e, ParseError::InvalidCount { line: 4 });
}

#[test]
fn character_errors() {
    let table = table_with(&[("spy", "Spy\nMinion\nYou see")]);
    let e = parse("Widow", "", &table).unwrap_err();
    assert_eq!(e.unit, "Widow");
    assert_eq!(e.error, ParseError::MissingLine { line: 1 });
    assert_eq!(parse("a", "A", &table).unwrap_err().error, ParseError::MissingLine { line: 2 });
    assert_eq!(parse("a", "A\nDemon", &table).unwrap_err().error, ParseError::MissingLine { line: 3 });
    assert_eq!(parse("a", "A\nDemons\nB", &table).unwrap_err().error, ParseError::InvalidTeam { line: 2 });
    assert_eq!(parse("a", "A\nDemon\nB\ncolour red", &table).unwrap_err().error, ParseError::InvalidKey { line: 4 });
    assert_eq!(parse("a", "A\nDemon\nB\njinx spy", &table).unwrap_err().error, ParseError::InvalidJinx { line: 4 });
    assert_eq!(
        parse("a", "A\nDemon\nB\nwakes first after", &table).unwrap_err().error,
        ParseError::InvalidWakes { line: 4 }
    );
    assert_eq!(
        parse("a", "A\nDemon\nB\nwakes first beside spy", &table).unwrap_err().error,
        ParseError::InvalidWakes { line: 4 }
    );
    assert_eq!(
        parse("a", "A\nDemon\nB\nwakes third after spy", &table).unwrap_err().error,
        ParseError::InvalidWakes { line: 4 }
    );
    assert_eq!(
        parse("a", "A\nDemon\nB\n\nwakes first after imp", &table).unwrap_err().error,
        ParseError::UnknownReference { line: 5, id: "imp".to_string() }
    );
    assert_eq!(parse("a", "A\nDemons\nB\ncolour red", &table).unwrap_err().error, ParseError::InvalidKey { line: 4 });
}

#[test]
fn sort_index_catalogue() {
    assert_eq!(get_sort_idx("You start knowing 1 of 2 players"), 0);
    assert_eq!(get_sort_idx("Each night, choose"), 1);
    assert_eq!(get_sort_idx("Each night*, choose"), 2);
    assert_eq!(get_sort_idx("Once per game, at night*, choose"), 6);
    assert_eq!(get_sort_idx("Once per game, at night, choose"), 5);
    assert_eq!(get_sort_idx("You are drunk"), 12);
    assert_eq!(get_sort_idx("Youth"), 16);
    assert_eq!(get_sort_idx("Minions know"), 34);
    assert_eq!(get_sort_idx("Something else"), 35);
    assert_eq!(get_sort_idx(""), 35);
}

#[test]
fn team_names() {
    assert_eq!(Team::Townsfolk.to_str(), "townsfolk");
    assert_eq!(Team::Traveller.to_str(), "traveller");
    assert_eq!(Team::Special.to_str(), "special");
    assert_eq!(Team::default(), Team::Special);
    assert!(Team::Townsfolk.rank() < Team::Outsider.rank());
    assert!(Team::Fabled.rank() < Team::Special.rank());
}

#[test]
fn signal_fields_in_order() {
    let table = CharacterTable::new();
    let c = parse("a", "A\nDemon\nB\nbagdisabled\nbagduplicate\ngrimoire_global_demon\nreplacereveal", &table).unwrap();
    let signals = c.special.as_ref().unwrap().as_serializable();
    assert_eq!(signals.len(), 4);
    let f = signals[0].fields();
    assert_eq!(f, vec![("type".to_string(), "selection".to_string()), ("name".to_string(), "bag-disabled".to_string())]);
    let f = signals[2].fields();
    assert_eq!(f.len(), 4);
    assert_eq!(f[3], ("global".to_string(), "demon".to_string()));
    let f = signals[3].fields();
    assert_eq!(f[1], ("name".to_string(), "replace-character".to_string()));
    let f = Signal::Card("Widow".to_string()).fields();
    assert_eq!(f[2], ("value".to_string(), "Widow".to_string()));
}

#[test]
fn special_characters_take_night_places() {
    let order = NightOrder {
        first_night: vec!["DUSK".to_string(), "MINION".to_string(), "DEMON".to_string(), "DAWN".to_string()],
        other_night: vec!["DUSK".to_string(), "imp".to_string(), "DAWN".to_string()],
    };
    let dusk = special_character("DUSK", "Dusk", &order);
    assert_eq!(dusk.first_night, 10);
    assert_eq!(dusk.other_night, 10);
    assert_eq!(dusk.team, Team::Special);
    assert!(dusk.official);
    let all = SpecialCharacters::from_night_order(&order);
    assert_eq!(all.minions.name, "Minion Info");
    assert_eq!(all.minions.first_night, 20);
    assert_eq!(all.minions.other_night, 0);
    assert_eq!(all.dawn.first_night, 40);
    assert_eq!(all.dawn.other_night, 30);
}

#[test]
fn image_list_and_official_characters() {
    let images = ImageTable::from_source("imp imp_evil imp_good\n\nspy spy\nimp imp2\n");
    assert_eq!(
        images.get("imp").unwrap(),
        &vec!["https://botc.app/assets/imp2.webp".to_string()]
    );
    assert_eq!(images.get("spy").unwrap(), &vec!["https://botc.app/assets/spy.webp".to_string()]);
    assert!(images.get("baron").is_none());
    let mut table = CharacterTable::new();
    let imp = parse("imp", "Imp\nDemon\nEach night*", &table).unwrap();
    table.add_official(imp, &images);
    let stored = table.get("imp").unwrap();
    assert!(stored.official);
    assert_eq!(stored.image, vec!["https://botc.app/assets/imp2.webp".to_string()]);
    assert_eq!(table.len(), 1);
}

#[test]
fn other_signals_pass_through() {
    let table = CharacterTable::new();
    let mut c = parse("a", "A\nDemon\nB\ngrimoire", &table).unwrap();
    let special = c.special.as_mut().unwrap();
    special.others.push(vec![("name".to_string(), "\"pointing\"".to_string()), ("type".to_string(), "\"ability\"".to_string())]);
    assert!(special.any());
    let signals = special.as_serializable();
    assert_eq!(signals.len(), 2);
    assert!(matches!(signals[0], Signal::Grimoire));
    assert_eq!(signals[1].fields()[0], ("name".to_string(), "\"pointing\"".to_string()));
    let mut only_other = script_gen::character::AppSpecial::new();
    assert!(!only_other.any());
    only_other.others.push(vec![]);
    assert!(only_other.any());
}
