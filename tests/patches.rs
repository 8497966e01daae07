use script_gen::character::Character;
use script_gen::error::ParseError;
use script_gen::patch::{Patch, PatchTable};
use script_gen::script::Script;
use script_gen::table::{CharacterTable, ImageTable};

fn add(table: &mut CharacterTable, stem: &str, text: &str) {
    let c = Character::from_source(stem, text, vec![], table).unwrap();
    table.insert(c);
}

fn ids(script: &Script) -> Vec<String> {
    script.characters.iter().map(|c| c.id.clone()).collect()
}

#[test]
fn patch_units_parse() {
    let p = Patch::from_source("patch", "replace New ability.\nadd Reason one\n\njinx spy Spy reason\nadd Reason two").unwrap();
    assert_eq!(p.replace, Some("New ability.".to_string()));
    assert_eq!(p.add, vec!["Reason one".to_string(), "Reason two".to_string()]);
    assert_eq!(p.jinxes.len(), 1);
    assert_eq!(p.jinxes[0].id, "spy");
    assert_eq!(p.jinxes[0].reason, "Spy reason");
    let e = Patch::from_source("poisoner", "jinx spy").unwrap_err();
    assert_eq!(e.unit, "poisoner");
    assert_eq!(e.error, ParseError::InvalidJinx { line: 1 });
    assert_eq!(Patch::from_source("patch", "add a\nremove b").unwrap_err().error, ParseError::InvalidKey { line: 2 });
}

#[test]
fn direct_patch_renames_and_attaches() {
    let mut t = CharacterTable::new();
    add(&mut t, "a", "A\nTownsfolk\nOld");
    add(&mut t, "spy", "Spy\nMinion\nYou see");
    let mut patches = PatchTable::new();
    patches.insert(
        "a".to_string(),
        Patch::from_source("patch", "replace New\nadd Own reason\njinx spy With spy\njinx ghost Absent").unwrap(),
    );
    let mut s = Script::from_source("script", "N\nA\nkeeporder\na\nspy", &t).unwrap();
    s.apply_patches(&patches, &ImageTable::new());
    let a = &s.characters[0];
    assert_eq!(a.id, "patched_a");
    assert!(a.patched);
    assert_eq!(a.ability, "New");
    let jinxes: Vec<(String, String)> = a.jinxes.iter().map(|j| (j.id.clone(), j.reason.clone())).collect();
    assert_eq!(
        jinxes,
        vec![
            ("spy".to_string(), "With spy".to_string()),
            ("patched_a".to_string(), "Own reason".to_string()),
            ("patched_a".to_string(), "This character has a modified ability.".to_string()),
        ]
    );
    assert_eq!(s.characters[1].id, "spy");
}

#[test]
fn patch_without_effect_is_inert() {
    let mut t = CharacterTable::new();
    add(&mut t, "a", "A\nTownsfolk\nOld");
    let mut patches = PatchTable::new();
    patches.insert("a".to_string(), Patch::from_source("patch", "jinx ghost Absent").unwrap());
    patches.insert("nobody".to_string(), Patch::from_source("patch", "replace X").unwrap());
    let mut s = Script::from_source("script", "N\nA\na", &t).unwrap();
    s.apply_patches(&patches, &ImageTable::new());
    assert_eq!(ids(&s), vec!["a"]);
    assert!(!s.characters[0].patched);
}

#[test]
fn applying_twice_prefixes_once() {
    let mut t = CharacterTable::new();
    add(&mut t, "a", "A\nTownsfolk\nOld\njinx b A and B");
    add(&mut t, "b", "B\nTownsfolk\nOther");
    add(&mut t, "c", "C\nTownsfolk\nThird\njinx b C and B");
    let mut patches = PatchTable::new();
    patches.insert("b".to_string(), Patch::from_source("patch", "add Changed").unwrap());
    let images = ImageTable::new();
    let mut s = Script::from_source("script", "N\nA\nkeeporder\na\nb\nc", &t).unwrap();
    s.apply_patches(&patches, &images);
    let once = ids(&s);
    assert_eq!(once, vec!["patched_a", "patched_b", "patched_c"]);
    s.apply_patches(&patches, &images);
    assert_eq!(ids(&s), once);
    assert_eq!(s.characters[0].jinxes[0].id, "patched_b");
}

#[test]
fn jinx_cycle_renames_each_once() {
    let mut t = CharacterTable::new();
    add(&mut t, "a", "A\nTownsfolk\nFirst\njinx b A then B");
    add(&mut t, "b", "B\nOutsider\nSecond\njinx a B then A");
    let mut patches = PatchTable::new();
    patches.insert("a".to_string(), Patch::from_source("patch", "replace Changed").unwrap());
    let mut images = ImageTable::new();
    images.insert("b".to_string(), vec!["b.png".to_string()]);
    let mut s = Script::from_source("script", "N\nA\nkeeporder\na\nb", &t).unwrap();
    s.apply_patches(&patches, &images);
    assert_eq!(ids(&s), vec!["patched_a", "patched_b"]);
    assert_eq!(s.characters[0].jinxes[0].id, "patched_b");
    assert_eq!(s.characters[1].jinxes[0].id, "patched_a");
    assert_eq!(s.characters[1].image, vec!["b.png".to_string()]);
    assert!(s.characters[1].patched);
}

#[test]
fn propagation_follows_chains() {
    let mut t = CharacterTable::new();
    add(&mut t, "x", "X\nTownsfolk\nOne\njinx y X-Y");
    add(&mut t, "y", "Y\nTownsfolk\nTwo\njinx z Y-Z");
    add(&mut t, "z", "Z\nTownsfolk\nThree");
    add(&mut t, "w", "W\nTownsfolk\nFour");
    let mut patches = PatchTable::new();
    patches.insert("z".to_string(), Patch::from_source("patch", "add Z changed").unwrap());
    let mut s = Script::from_source("script", "N\nA\nkeeporder\nx\ny\nz\nw", &t).unwrap();
    s.apply_patches(&patches, &ImageTable::new());
    assert_eq!(ids(&s), vec!["patched_x", "patched_y", "patched_z", "w"]);
}
