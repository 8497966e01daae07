//! Scripts: a name, an author, custom rules, introductory text and an
//! ordered list of characters, read from the script text format.
use vstd::prelude::*;

use crate::character::{Character, CharacterView, character_views};
use crate::character_source::{after_block, block_end, lemma_block_end, push_all};
use crate::error::{ParseError, ParseErrorView, SourceError};
use crate::table::{lookup, CharacterTable};
use crate::text::{chars_seqs, is_word, lines, split_lines, split_once, split_once_space, string_of, strs, to_chars};

verus! {

/// The text of a script's almanac.
#[derive(Debug)]
pub struct AlmanacFields {
    pub intro: Vec<String>,
}

impl AlmanacFields {
    /// No introductory text.
    pub fn new() -> (r: AlmanacFields)
        ensures
            strs(r.intro@) == Seq::<Seq<char>>::empty(),
    {
        let r = AlmanacFields { intro: Vec::new() };
        assert(strs(r.intro@) =~= Seq::<Seq<char>>::empty());
        r
    }
}

/// An ordered presentation of characters for one game. Each script owns its
/// copies of the characters, so changing one script leaves others alone.
/// Unless `keep_order` is set, the characters are put into canonical order
/// once their requirements are resolved.
#[derive(Debug)]
pub struct Script {
    pub name: String,
    pub author: String,
    pub characters: Vec<Character>,
    pub bootlegger_rules: Vec<String>,
    pub almanac: AlmanacFields,
    pub keep_order: bool,
}

pub struct ScriptView {
    pub name: Seq<char>,
    pub author: Seq<char>,
    pub characters: Seq<CharacterView>,
    pub bootlegger_rules: Seq<Seq<char>>,
    pub intro: Seq<Seq<char>>,
    pub keep_order: bool,
}

impl View for Script {
    type V = ScriptView;

    open spec fn view(&self) -> ScriptView {
        ScriptView {
            name: self.name@,
            author: self.author@,
            characters: character_views(self.characters@),
            bootlegger_rules: strs(self.bootlegger_rules@),
            intro: strs(self.almanac.intro@),
            keep_order: self.keep_order,
        }
    }
}

/// What has been read of a script unit so far.
pub struct ScriptDraft {
    pub characters: Seq<CharacterView>,
    pub rules: Seq<Seq<char>>,
    pub intro: Seq<Seq<char>>,
    pub sort: bool,
}

/// The rule of a `bootlegger rule` line.
pub open spec fn bootlegger_rule(l: Seq<char>) -> Option<Seq<char>> {
    match split_once(l, ' ') {
        Some((k, rule)) => if k == "bootlegger"@ {
            Some(rule)
        } else {
            None
        },
        None => None,
    }
}

fn bootlegger_rule_of(l: &Vec<char>) -> (r: Option<Vec<char>>)
    ensures
        match bootlegger_rule(l@) {
            Some(rule) => r is Some && r->0@ == rule,
            None => r is None,
        },
{
    match split_once_space(l) {
        Some((k, v)) => if is_word(&k, "bootlegger") {
            Some(v)
        } else {
            None
        },
        None => None,
    }
}

/// The lines of a script unit from index `i` on, read into `d`.
pub open spec fn parse_script_body(
    ls: Seq<Seq<char>>,
    i: int,
    d: ScriptDraft,
    t: Seq<CharacterView>,
) -> Result<ScriptDraft, ParseErrorView>
    decreases ls.len() - i,
{
    if i < 0 || i >= ls.len() {
        Ok(d)
    } else {
        let l = ls[i];
        proof {
            lemma_block_end(ls, i + 1);
        }
        match bootlegger_rule(l) {
            Some(rule) => parse_script_body(
                ls,
                i + 1,
                ScriptDraft { rules: d.rules.push(rule), ..d },
                t,
            ),
            None => if l == "intro"@ {
                let b = ls.subrange(i + 1, block_end(ls, i + 1));
                parse_script_body(
                    ls,
                    after_block(ls, i + 1),
                    ScriptDraft { intro: d.intro + b, ..d },
                    t,
                )
            } else if l == "keeporder"@ {
                parse_script_body(ls, i + 1, ScriptDraft { sort: false, ..d }, t)
            } else if l.len() == 0 {
                parse_script_body(ls, i + 1, d, t)
            } else {
                match lookup(t, l) {
                    None => Err(ParseErrorView::UnknownCharacter { line: (i + 1) as usize, id: l }),
                    Some(c) => parse_script_body(
                        ls,
                        i + 1,
                        ScriptDraft { characters: d.characters.push(c), ..d },
                        t,
                    ),
                }
            },
        }
    }
}

/// The script that a unit describes: name and author on the first two lines,
/// then its characters in the order of the unit; a `keeporder` line asks to
/// keep that order when requirements are resolved.
pub open spec fn parse_script(text: Seq<char>, t: Seq<CharacterView>) -> Result<ScriptView, ParseErrorView> {
    let ls = lines(text);
    if ls.len() < 1 {
        Err(ParseErrorView::MissingLine { line: 1 })
    } else if ls.len() < 2 {
        Err(ParseErrorView::MissingLine { line: 2 })
    } else {
        let init = ScriptDraft {
            characters: Seq::empty(),
            rules: Seq::empty(),
            intro: Seq::empty(),
            sort: true,
        };
        match parse_script_body(ls, 2, init, t) {
            Err(e) => Err(e),
            Ok(d) => Ok(
                ScriptView {
                    name: ls[0],
                    author: ls[1],
                    characters: d.characters,
                    bootlegger_rules: d.rules,
                    intro: d.intro,
                    keep_order: !d.sort,
                },
            ),
        }
    }
}

pub open spec fn draft_of(chars: Seq<Character>, rules: Seq<String>, intro: Seq<String>, sort: bool) -> ScriptDraft {
    ScriptDraft {
        characters: character_views(chars),
        rules: strs(rules),
        intro: strs(intro),
        sort,
    }
}

impl Script {
    /// Reads the script unit `source`, taking its characters from
    /// `character_list`; an error names the unit by `unit`.
    pub fn from_source(unit: &str, source: &str, character_list: &CharacterTable) -> (r: Result<
        Script,
        SourceError,
    >)
        ensures
            match parse_script(source@, character_list@) {
                Ok(s) => r is Ok && r->Ok_0@ == s,
                Err(e) => r is Err && r->Err_0.unit@ == unit@ && r->Err_0.error@ == e,
            },
    {
        match Script::read_unit(source, character_list) {
            Ok(s) => Ok(s),
            Err(e) => Err(SourceError::new(unit, e)),
        }
    }

    fn read_unit(source: &str, character_list: &CharacterTable) -> (r: Result<Script, ParseError>)
        ensures
            match parse_script(source@, character_list@) {
                Ok(s) => r is Ok && r->Ok_0@ == s,
                Err(e) => r is Err && r->Err_0@ == e,
            },
    {
        let text = to_chars(source);
        let ls = split_lines(&text);
        let ghost lv = chars_seqs(ls@);
        if ls.len() < 1 {
            return Err(ParseError::MissingLine { line: 1 });
        }
        if ls.len() < 2 {
            return Err(ParseError::MissingLine { line: 2 });
        }
        let mut characters: Vec<Character> = Vec::new();
        let mut rules: Vec<String> = Vec::new();
        let mut almanac = AlmanacFields::new();
        let mut sort = true;
        let ghost init = ScriptDraft {
            characters: Seq::empty(),
            rules: Seq::empty(),
            intro: Seq::empty(),
            sort: true,
        };
        assert(draft_of(characters@, rules@, almanac.intro@, sort) == init) by {
            assert(character_views(characters@) =~= Seq::<CharacterView>::empty());
            assert(strs(rules@) =~= Seq::<Seq<char>>::empty());
        }
        let ghost target = parse_script_body(lv, 2, init, character_list@);
        let mut i: usize = 2;
        while i < ls.len()
            invariant
                2 <= i <= ls@.len(),
                lv == chars_seqs(ls@),
                lv == lines(source@),
                target == parse_script_body(lv, 2, init, character_list@),
                init == (ScriptDraft {
                    characters: Seq::empty(),
                    rules: Seq::empty(),
                    intro: Seq::empty(),
                    sort: true,
                }),
                parse_script_body(lv, i as int, draft_of(characters@, rules@, almanac.intro@, sort), character_list@) == target,
            decreases ls@.len() - i,
        {
            let l = &ls[i];
            proof {
                lemma_block_end(lv, i + 1);
            }
            match bootlegger_rule_of(l) {
                Some(v) => {
                    let ghost before = strs(rules@);
                    rules.push(string_of(v.as_slice()));
                    assert(strs(rules@) == before.push(v@));
                    i = i + 1;
                },
                None => {
                    if is_word(l, "intro") {
                        let (b, next) = crate::character_source::read_block(&ls, i + 1);
                        push_all(&mut almanac.intro, b);
                        i = next;
                    } else if is_word(l, "keeporder") {
                        sort = false;
                        i = i + 1;
                    } else if l.len() == 0 {
                        i = i + 1;
                    } else {
                        match character_list.get_chars(l) {
                            None => {
                                return Err(ParseError::UnknownCharacter { line: i + 1, id: string_of(l.as_slice()) });
                            },
                            Some(c) => {
                                let ghost before = character_views(characters@);
                                characters.push(c.clone());
                                assert(character_views(characters@) == before.push(c@));
                                i = i + 1;
                            },
                        }
                    }
                },
            }
        }
        Ok(
            Script {
                name: string_of(ls[0].as_slice()),
                author: string_of(ls[1].as_slice()),
                characters,
                bootlegger_rules: rules,
                almanac,
                keep_order: !sort,
            },
        )
    }
}

} // verus!
