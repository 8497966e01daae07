use script_gen::character::Character;
use script_gen::script::Script;
use script_gen::special::{NightOrder, SpecialCharacters};
use script_gen::table::CharacterTable;

fn add(table: &mut CharacterTable, stem: &str, text: &str, first: i64, other: i64) {
    let mut c = Character::from_source(stem, text, vec![], table).unwrap();
    c.first_night = first;
    c.other_night = other;
    table.insert(c);
}

fn specials() -> SpecialCharacters {
    SpecialCharacters::from_night_order(&NightOrder {
        first_night: vec!["DUSK".to_string(), "x".to_string(), "MINION".to_string(), "DEMON".to_string(), "DAWN".to_string()],
        other_night: vec!["DUSK".to_string(), "y".to_string(), "DAWN".to_string()],
    })
}

#[test]
fn night_order_merges_and_sorts() {
    let mut t = CharacterTable::new();
    add(&mut t, "late", "Late\nTownsfolk\nYou", 45, 0);
    add(&mut t, "early", "Early\nTownsfolk\nYou", 11, 21);
    add(&mut t, "never", "Never\nTownsfolk\nYou", 0, 0);
    add(&mut t, "tie", "Tie\nMinion\nYou", 20, 0);
    let s = Script::from_source("script", "S\nA\nkeeporder\nlate\nnever\nearly\ntie", &t).unwrap();
    let sp = specials();
    let first_special = vec![sp.dusk.clone(), sp.minions.clone(), sp.demon.clone(), sp.dawn.clone()];
    let first: Vec<String> = s.night_order(&first_special, true).iter().map(|c| c.id.clone()).collect();
    assert_eq!(first, vec!["DUSK", "early", "tie", "MINION", "DEMON", "late", "DAWN"]);
    let other_special = vec![sp.dusk.clone(), sp.dawn.clone()];
    let other: Vec<String> = s.night_order(&other_special, false).iter().map(|c| c.id.clone()).collect();
    assert_eq!(other, vec!["DUSK", "early", "DAWN"]);
}

#[test]
fn empty_almanac_page() {
    let t = CharacterTable::new();
    let s = Script::from_source("script", "Tiny\nMe", &t).unwrap();
    let page = s.write_html(&vec![], &vec![], "p{}");
    let expected = "<!DOCTYPE html><html lang=\"en\"><head><meta charset=\"UTF-8\"><meta name=\"viewport\" content=\"width=device-width, initial-scale=1.0\"><title>Tiny</title><style>p{}</style></head><body>\
<aside><a href=\"#intro\" class=\"intro\">Intro</a><a href=\"#night-order\" class=\"night-order\">Night Order</a></aside>\
<main><div id=\"intro\" class=\"page\"></div><div class=\"page-separator\"></div>\
<div id=\"night-order\" class=\"page\"><h2 class=\"night-order\">NIGHT ORDER</h2><div class=\"night-order-container\">\
<div class=\"night-order-list\"><h3 class=\"night-order-type\">FIRST NIGHT</h3><div class=\"night-order-list-container\"></div></div>\
<div class=\"night-order-list\"><h3 class=\"night-order-type\">OTHER NIGHTS</h3><div class=\"night-order-list-container\"></div></div>\
</div><div class=\"page-separator\"></div></main></body></html>";
    assert_eq!(page, expected);
}

#[test]
fn character_page_sections() {
    let t = CharacterTable::new();
    let c = Character::from_source(
        "imp",
        "Imp\nDemon\nEach night*, choose a player: they die.\nflavour\nSpark\n\nexamples\nOne\n\nimage imp.png",
        vec![],
        &t,
    )
    .unwrap();
    let mut t = t;
    t.insert(c);
    let s = Script::from_source("script", "S\nA\nintro\nWelcome\n\nimp", &t).unwrap();
    let page = s.write_html(&vec![], &vec![], "");
    assert!(page.contains("<a href=\"#imp\" class=\"demon\">Imp</a>"));
    assert!(page.contains("<div id=\"intro\" class=\"page\"><p class=\"intro\">Welcome</p></div>"));
    assert!(page.contains(
        "<div id=\"imp\" class=\"page demon\"><p class=\"team\">demon</p><img class=\"char-image\" src=\"imp.png\" /><h2 class=\"name\">Imp</h2><p class=\"ability\">Each night*, choose a player: they die.</p><hr /><p class=\"flavour\">\"Spark\"</p><h3>EXAMPLES</h3><p>One</p></div>"
    ));
    assert!(!page.contains("HOW TO RUN"));
}

#[test]
fn wakes_saturates_at_largest_order() {
    let mut t = CharacterTable::new();
    add(&mut t, "top", "Top\nTownsfolk\nYou", i64::MAX, i64::MIN);
    let c = Character::from_source("next", "Next\nTownsfolk\nYou\nwakes first after top", vec![], &t).unwrap();
    assert_eq!(c.first_night, i64::MAX);
    let c = Character::from_source("prev", "Prev\nTownsfolk\nYou\nwakes other before top", vec![], &t).unwrap();
    assert_eq!(c.other_night, i64::MIN);
}
