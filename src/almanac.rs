//! Markup for the index of generated almanacs, and the names that pages use
//! for teams.
use vstd::prelude::*;

use crate::character::{Character, CharacterView, Team, character_views};
use crate::script::Script;
use crate::text::strs;

verus! {

/// The lower-case name of a team, as pages and the interchange format use it.
pub open spec fn team_name(t: Team) -> Seq<char> {
    match t {
        Team::Townsfolk => "townsfolk"@,
        Team::Outsider => "outsider"@,
        Team::Minion => "minion"@,
        Team::Demon => "demon"@,
        Team::Traveller => "traveller"@,
        Team::Fabled => "fabled"@,
        Team::Special => "special"@,
    }
}

impl Team {
    /// The lower-case name of the team.
    pub fn to_str(&self) -> (r: &'static str)
        ensures
            r@ == team_name(*self),
    {
        match self {
            Team::Townsfolk => "townsfolk",
            Team::Outsider => "outsider",
            Team::Minion => "minion",
            Team::Demon => "demon",
            Team::Traveller => "traveller",
            Team::Fabled => "fabled",
            Team::Special => "special",
        }
    }
}

/// The start of the index page, with `style` as its style sheet.
pub open spec fn index_head(style: Seq<char>) -> Seq<char> {
    "<!DOCTYPE html><html lang=\"en\"><head><meta charset=\"UTF-8\"><meta name=\"viewport\" content=\"width=device-width, initial-scale=1.0\"><title>Toto's Script Index</title><style>"@
        + style + "</style></head><body>"@
}

/// The index entry of the almanac `id` named `name`: a link to its page and
/// one to its interchange file.
pub open spec fn index_entry(id: Seq<char>, name: Seq<char>) -> Seq<char> {
    "<div class=\"entry\"><a class=\"almanac\" href=\"/"@ + id + ".html\">"@ + name
        + "</a><a class=\"json\" href=\"/"@ + id + ".official.json\">Json</a></div>"@
}

/// The entries of the index page, in order.
pub open spec fn index_entries(es: Seq<(String, String)>) -> Seq<char>
    decreases es.len(),
{
    if es.len() == 0 {
        Seq::empty()
    } else {
        index_entries(es.drop_last()) + index_entry(es.last().0@, es.last().1@)
    }
}

/// The index page of the almanacs `entries`, each an id and a name.
pub fn write_index(entries: &Vec<(String, String)>, style: &str) -> (r: String)
    ensures
        r@ == index_head(style@) + index_entries(entries@) + "</body>"@,
{
    let mut out = crate::text::string_of(
        crate::text::to_chars(
            "<!DOCTYPE html><html lang=\"en\"><head><meta charset=\"UTF-8\"><meta name=\"viewport\" content=\"width=device-width, initial-scale=1.0\"><title>Toto's Script Index</title><style>",
        ).as_slice(),
    );
    out.append(style);
    out.append("</style></head><body>");
    let ghost head = out@;
    let mut i: usize = 0;
    while i < entries.len()
        invariant
            i <= entries@.len(),
            head == index_head(style@),
            out@ == head + index_entries(entries@.subrange(0, i as int)),
        decreases entries@.len() - i,
    {
        let (id, name) = (&entries[i].0, &entries[i].1);
        let ghost before = out@;
        out.append("<div class=\"entry\"><a class=\"almanac\" href=\"/");
        out.append(id.as_str());
        out.append(".html\">");
        out.append(name.as_str());
        out.append("</a><a class=\"json\" href=\"/");
        out.append(id.as_str());
        out.append(".official.json\">Json</a></div>");
        assert(entries@.subrange(0, i + 1).drop_last() =~= entries@.subrange(0, i as int));
        assert(out@ =~= before + index_entry(id@, name@));
        i = i + 1;
    }
    assert(entries@.subrange(0, entries@.len() as int) =~= entries@);
    out.append("</body>");
    out
}

/// `open` + line + `close` for each line of `ls`, in order.
pub open spec fn wrap_lines(open: Seq<char>, close: Seq<char>, ls: Seq<Seq<char>>) -> Seq<char>
    decreases ls.len(),
{
    if ls.len() == 0 {
        Seq::empty()
    } else {
        wrap_lines(open, close, ls.drop_last()) + open + ls.last() + close
    }
}

/// `open` + line + `close` appended to `out` for each line of `ls`.
fn push_wrapped(out: &mut String, open: &str, close: &str, ls: &Vec<String>)
    ensures
        final(out)@ == old(out)@ + wrap_lines(open@, close@, strs(ls@)),
{
    let mut i: usize = 0;
    while i < ls.len()
        invariant
            i <= ls@.len(),
            out@ == old(out)@ + wrap_lines(open@, close@, strs(ls@).subrange(0, i as int)),
        decreases ls@.len() - i,
    {
        let ghost before = out@;
        out.append(open);
        out.append(ls[i].as_str());
        out.append(close);
        assert(strs(ls@).subrange(0, i + 1).drop_last() =~= strs(ls@).subrange(0, i as int));
        assert(out@ =~= before + open@ + ls@[i as int]@ + close@);
        i = i + 1;
    }
    assert(strs(ls@).subrange(0, ls@.len() as int) =~= strs(ls@));
}

/// The start of a page with id `id` and, if given, an extra class.
pub open spec fn page_start(id: Seq<char>, class: Option<Seq<char>>) -> Seq<char> {
    match class {
        Some(c) => "<div id=\""@ + id + "\" class=\"page "@ + c + "\">"@,
        None => "<div id=\""@ + id + "\" class=\"page\">"@,
    }
}

/// The end of a page.
pub open spec fn page_end() -> Seq<char> {
    "</div><div class=\"page-separator\"></div>"@
}

fn push_page_start(out: &mut String, id: &str, class: Option<&str>)
    ensures
        final(out)@ == old(out)@ + page_start(
            id@,
            match class {
                Some(c) => Some(c@),
                None => None,
            },
        ),
{
    out.append("<div id=\"");
    out.append(id);
    match class {
        Some(c) => {
            out.append("\" class=\"page ");
            out.append(c);
            out.append("\">");
        },
        None => {
            out.append("\" class=\"page\">");
        },
    }
}

fn push_page_end(out: &mut String)
    ensures
        final(out)@ == old(out)@ + page_end(),
{
    out.append("</div><div class=\"page-separator\"></div>");
}

/// The start of an almanac page, titled with the script's name.
pub open spec fn head(name: Seq<char>, style: Seq<char>) -> Seq<char> {
    "<!DOCTYPE html><html lang=\"en\"><head><meta charset=\"UTF-8\"><meta name=\"viewport\" content=\"width=device-width, initial-scale=1.0\"><title>"@
        + name + "</title><style>"@ + style + "</style></head><body>"@
}

/// The link to a character's page in the side bar.
pub open spec fn aside_link(c: CharacterView) -> Seq<char> {
    "<a href=\"#"@ + c.id + "\" class=\""@ + team_name(c.team) + "\">"@ + c.name + "</a>"@
}

pub open spec fn aside_links(cs: Seq<CharacterView>) -> Seq<char>
    decreases cs.len(),
{
    if cs.len() == 0 {
        Seq::empty()
    } else {
        aside_links(cs.drop_last()) + aside_link(cs.last())
    }
}

/// The side bar: links to the introduction, to each character and to the
/// night order.
pub open spec fn aside(cs: Seq<CharacterView>) -> Seq<char> {
    "<aside><a href=\"#intro\" class=\"intro\">Intro</a>"@ + aside_links(cs)
        + "<a href=\"#night-order\" class=\"night-order\">Night Order</a></aside>"@
}

fn push_aside(out: &mut String, cs: &Vec<Character>)
    ensures
        final(out)@ == old(out)@ + aside(character_views(cs@)),
{
    out.append("<aside><a href=\"#intro\" class=\"intro\">Intro</a>");
    let ghost start = out@;
    let ghost cv = character_views(cs@);
    let mut i: usize = 0;
    while i < cs.len()
        invariant
            i <= cs@.len(),
            cv == character_views(cs@),
            out@ == start + aside_links(cv.subrange(0, i as int)),
        decreases cs@.len() - i,
    {
        let c = &cs[i];
        let ghost before = out@;
        out.append("<a href=\"#");
        out.append(c.id.as_str());
        out.append("\" class=\"");
        out.append(c.team.to_str());
        out.append("\">");
        out.append(c.name.as_str());
        out.append("</a>");
        assert(cv.subrange(0, i + 1).drop_last() =~= cv.subrange(0, i as int));
        assert(out@ =~= before + aside_link(cv[i as int]));
        i = i + 1;
    }
    assert(cv.subrange(0, cv.len() as int) =~= cv);
    out.append("<a href=\"#night-order\" class=\"night-order\">Night Order</a></aside>");
}

/// The page of introductory text.
pub open spec fn intro_page(intro: Seq<Seq<char>>) -> Seq<char> {
    page_start("intro"@, None) + wrap_lines("<p class=\"intro\">"@, "</p>"@, intro) + page_end()
}

/// `s` when `b` holds, else nothing.
pub open spec fn only_if(b: bool, s: Seq<char>) -> Seq<char> {
    if b {
        s
    } else {
        Seq::empty()
    }
}

/// The top of a character page: team, image if it has one, name, ability
/// and a rule.
pub open spec fn character_top(c: CharacterView) -> Seq<char> {
    "<p class=\"team\">"@ + team_name(c.team) + "</p>"@ + only_if(
        c.image.len() > 0,
        "<img class=\"char-image\" src=\""@ + c.image[0] + "\" />"@,
    ) + "<h2 class=\"name\">"@ + c.name + "</h2>"@ + "<p class=\"ability\">"@ + c.ability
        + "</p>"@ + "<hr />"@
}

/// The page of one character: its top, then each descriptive text that it
/// has.
pub open spec fn character_page(c: CharacterView) -> Seq<char> {
    page_start(c.id, Some(team_name(c.team))) + character_top(c) + description(c) + page_end()
}

fn push_intro_page(out: &mut String, intro: &Vec<String>)
    ensures
        final(out)@ == old(out)@ + intro_page(strs(intro@)),
{
    push_page_start(out, "intro", None);
    push_wrapped(out, "<p class=\"intro\">", "</p>", intro);
    push_page_end(out);
    assert(out@ =~= old(out)@ + intro_page(strs(intro@)));
}

/// `open` + `s` + `close`, when `s` is not empty.
pub open spec fn text_part(open: Seq<char>, s: Seq<char>, close: Seq<char>) -> Seq<char> {
    only_if(s.len() > 0, open + s + close)
}

/// `header`, the wrapped lines and `trailer`, when there are lines.
pub open spec fn block(
    header: Seq<char>,
    open: Seq<char>,
    close: Seq<char>,
    trailer: Seq<char>,
    ls: Seq<Seq<char>>,
) -> Seq<char> {
    only_if(ls.len() > 0, header + wrap_lines(open, close, ls) + trailer)
}

/// The descriptive parts of a character page, after the rule under the
/// ability.
pub open spec fn description(c: CharacterView) -> Seq<char> {
    text_part("<p class=\"flavour\">\""@, c.flavour, "\"</p>"@) + text_part(
        "<p class=\"overview-short\">"@,
        c.overview_short,
        "</p>"@,
    ) + block("<ul>"@, "<li>"@, "</li>"@, "</ul>"@, c.overview_long) + block(
        "<h3>EXAMPLES</h3>"@,
        "<p>"@,
        "</p>"@,
        ""@,
        c.examples,
    ) + block("<h3>HOW TO RUN</h3>"@, "<p>"@, "</p>"@, ""@, c.how_to_run) + block(
        ""@,
        "<p class=\"advice\">"@,
        "</p>"@,
        ""@,
        c.advice,
    ) + block("<h3>ATTRIBUTION</h3>"@, "<p>"@, "</p>"@, ""@, c.attribution)
}

fn push_text_part(out: &mut String, open: &str, s: &String, close: &str)
    ensures
        final(out)@ == old(out)@ + text_part(open@, s@, close@),
{
    if !s.as_str().is_empty() {
        out.append(open);
        out.append(s.as_str());
        out.append(close);
        assert(out@ =~= old(out)@ + (open@ + s@ + close@));
    } else {
        assert(out@ =~= old(out)@ + text_part(open@, s@, close@));
    }
}

fn push_block(out: &mut String, header: &str, open: &str, close: &str, trailer: &str, ls: &Vec<String>)
    ensures
        final(out)@ == old(out)@ + block(header@, open@, close@, trailer@, strs(ls@)),
{
    if ls.len() > 0 {
        out.append(header);
        push_wrapped(out, open, close, ls);
        out.append(trailer);
        assert(out@ =~= old(out)@ + (header@ + wrap_lines(open@, close@, strs(ls@)) + trailer@));
    } else {
        assert(out@ =~= old(out)@ + block(header@, open@, close@, trailer@, strs(ls@)));
    }
}

fn push_description(out: &mut String, c: &Character)
    ensures
        final(out)@ == old(out)@ + description(c@),
{
    let ghost cv = c@;
    let ghost s0 = out@;
    let ghost flavour_part = text_part("<p class=\"flavour\">\""@, cv.flavour, "\"</p>"@);
    let ghost short_part = text_part("<p class=\"overview-short\">"@, cv.overview_short, "</p>"@);
    let ghost long_part = block("<ul>"@, "<li>"@, "</li>"@, "</ul>"@, cv.overview_long);
    let ghost examples_part = block("<h3>EXAMPLES</h3>"@, "<p>"@, "</p>"@, ""@, cv.examples);
    let ghost running_part = block("<h3>HOW TO RUN</h3>"@, "<p>"@, "</p>"@, ""@, cv.how_to_run);
    let ghost advice_part = block(""@, "<p class=\"advice\">"@, "</p>"@, ""@, cv.advice);
    let ghost credit_part = block("<h3>ATTRIBUTION</h3>"@, "<p>"@, "</p>"@, ""@, cv.attribution);
    assert(description(cv) == flavour_part + short_part + long_part + examples_part + running_part + advice_part + credit_part);
    push_text_part(out, "<p class=\"flavour\">\"", &c.flavour, "\"</p>");
    push_text_part(out, "<p class=\"overview-short\">", &c.overview_short, "</p>");
    assert(out@ =~= s0 + (flavour_part + short_part));
    push_block(out, "<ul>", "<li>", "</li>", "</ul>", &c.overview_long);
    assert(out@ =~= s0 + (flavour_part + short_part + long_part));
    push_block(out, "<h3>EXAMPLES</h3>", "<p>", "</p>", "", &c.examples);
    assert(out@ =~= s0 + (flavour_part + short_part + long_part + examples_part));
    push_block(out, "<h3>HOW TO RUN</h3>", "<p>", "</p>", "", &c.how_to_run);
    assert(out@ =~= s0 + (flavour_part + short_part + long_part + examples_part + running_part));
    push_block(out, "", "<p class=\"advice\">", "</p>", "", &c.advice);
    assert(out@ =~= s0 + (flavour_part + short_part + long_part + examples_part + running_part + advice_part));
    push_block(out, "<h3>ATTRIBUTION</h3>", "<p>", "</p>", "", &c.attribution);
    assert(out@ =~= s0 + (flavour_part + short_part + long_part + examples_part + running_part + advice_part + credit_part));
}

fn push_character_top(out: &mut String, c: &Character)
    ensures
        final(out)@ == old(out)@ + character_top(c@),
{
    let ghost cv = c@;
    let ghost s0 = out@;
    out.append("<p class=\"team\">");
    out.append(c.team.to_str());
    out.append("</p>");
    let ghost s1 = out@;
    if c.image.len() > 0 {
        out.append("<img class=\"char-image\" src=\"");
        out.append(c.image[0].as_str());
        out.append("\" />");
    }
    let ghost s2 = out@;
    assert(s2 =~= s1 + only_if(
        cv.image.len() > 0,
        "<img class=\"char-image\" src=\""@ + cv.image[0] + "\" />"@,
    ));
    out.append("<h2 class=\"name\">");
    out.append(c.name.as_str());
    out.append("</h2>");
    out.append("<p class=\"ability\">");
    out.append(c.ability.as_str());
    out.append("</p>");
    out.append("<hr />");
    assert(out@ =~= s0 + character_top(cv));
}

fn push_character_page(out: &mut String, c: &Character)
    ensures
        final(out)@ == old(out)@ + character_page(c@),
{
    let ghost cv = c@;
    let ghost s0 = out@;
    push_page_start(out, c.id.as_str(), Some(c.team.to_str()));
    let ghost a = page_start(cv.id, Some(team_name(cv.team)));
    push_character_top(out, c);
    assert(out@ =~= s0 + (a + character_top(cv)));
    push_description(out, c);
    assert(out@ =~= s0 + (a + character_top(cv) + description(cv)));
    push_page_end(out);
    assert(out@ =~= s0 + (a + character_top(cv) + description(cv) + page_end()));
}

/// The night order of `c` on the first night, or on other nights.
pub open spec fn night_key(c: CharacterView, first: bool) -> i64 {
    if first {
        c.first_night
    } else {
        c.other_night
    }
}

/// The characters of `cs` that wake on the night in question, in order.
pub open spec fn waking(cs: Seq<CharacterView>, first: bool) -> Seq<CharacterView>
    decreases cs.len(),
{
    if cs.len() == 0 {
        cs
    } else if night_key(cs.last(), first) > 0 {
        waking(cs.drop_last(), first).push(cs.last())
    } else {
        waking(cs.drop_last(), first)
    }
}

/// Where `x` goes into `t` by night order, searching from `p`: after every
/// character that wakes no later.
pub open spec fn night_pos(t: Seq<CharacterView>, x: CharacterView, first: bool, p: int) -> int
    decreases t.len() - p,
{
    if p < 0 || p >= t.len() {
        t.len() as int
    } else if night_key(x, first) < night_key(t[p], first) {
        p
    } else {
        night_pos(t, x, first, p + 1)
    }
}

/// The characters of `s` by night order; characters that wake at the same
/// place keep their order.
pub open spec fn sort_by_night(s: Seq<CharacterView>, first: bool) -> Seq<CharacterView>
    decreases s.len(),
{
    if s.len() == 0 {
        s
    } else {
        let t = sort_by_night(s.drop_last(), first);
        t.insert(night_pos(t, s.last(), first, 0), s.last())
    }
}

/// The night order of one night: the waking characters of the script and
/// the built-in characters `specials`, by night order.
pub open spec fn night_list(cs: Seq<CharacterView>, specials: Seq<CharacterView>, first: bool) -> Seq<
    CharacterView,
> {
    sort_by_night(waking(cs, first) + specials, first)
}

fn night_key_exec(c: &Character, first: bool) -> (r: i64)
    ensures
        r == night_key(c@, first),
{
    if first {
        c.first_night
    } else {
        c.other_night
    }
}

impl Script {
    /// The night order of the first night (`first`) or of other nights: the
    /// characters of the script that wake that night and the built-in
    /// characters `specials`, by night order, ties in the order given.
    pub fn night_order(&self, specials: &Vec<Character>, first: bool) -> (r: Vec<Character>)
        ensures
            character_views(r@) == night_list(character_views(self.characters@), character_views(specials@), first),
    {
        let ghost cs = character_views(self.characters@);
        let mut all: Vec<Character> = Vec::new();
        let mut i: usize = 0;
        assert(cs.subrange(0, 0) =~= Seq::<CharacterView>::empty());
        assert(character_views(all@) =~= Seq::<CharacterView>::empty());
        while i < self.characters.len()
            invariant
                i <= self.characters@.len(),
                cs == character_views(self.characters@),
                character_views(all@) == waking(cs.subrange(0, i as int), first),
            decreases self.characters@.len() - i,
        {
            let ghost before = character_views(all@);
            assert(cs.subrange(0, i + 1).drop_last() =~= cs.subrange(0, i as int));
            if night_key_exec(&self.characters[i], first) > 0 {
                all.push(self.characters[i].clone());
                assert(character_views(all@) =~= before.push(cs[i as int]));
            }
            i = i + 1;
        }
        assert(cs.subrange(0, cs.len() as int) =~= cs);
        let ghost w = character_views(all@);
        let mut j: usize = 0;
        while j < specials.len()
            invariant
                j <= specials@.len(),
                character_views(all@) == w + character_views(specials@).subrange(0, j as int),
            decreases specials@.len() - j,
        {
            let ghost before = character_views(all@);
            all.push(specials[j].clone());
            assert(character_views(all@) =~= before.push(specials@[j as int]@));
            assert(character_views(specials@).subrange(0, j + 1) =~= character_views(specials@).subrange(0, j as int).push(specials@[j as int]@));
            j = j + 1;
        }
        assert(character_views(specials@).subrange(0, specials@.len() as int) =~= character_views(specials@));
        let ghost orig = character_views(all@);
        let n = all.len();
        let mut rest = all;
        let mut out: Vec<Character> = Vec::new();
        let mut k: usize = 0;
        assert(orig.subrange(0, 0) =~= Seq::<CharacterView>::empty());
        assert(character_views(out@) =~= Seq::<CharacterView>::empty());
        while rest.len() > 0
            invariant
                k + rest@.len() == orig.len(),
                orig.len() == n,
                character_views(rest@) == orig.subrange(k as int, orig.len() as int),
                character_views(out@) == sort_by_night(orig.subrange(0, k as int), first),
            decreases rest@.len(),
        {
            let ghost rv = rest@;
            assert(character_views(rv)[0] == orig[k as int]);
            let c = rest.remove(0);
            assert(character_views(rest@) =~= character_views(rv).subrange(1, rv.len() as int));
            let ghost t = character_views(out@);
            let key = night_key_exec(&c, first);
            let mut p: usize = 0;
            while p < out.len() && !(key < night_key_exec(&out[p], first))
                invariant
                    p <= out@.len(),
                    t == character_views(out@),
                    key == night_key(c@, first),
                    night_pos(t, c@, first, 0) == night_pos(t, c@, first, p as int),
                decreases out@.len() - p,
            {
                p = p + 1;
            }
            out.insert(p, c);
            assert(character_views(out@) =~= t.insert(p as int, orig[k as int]));
            assert(orig.subrange(0, k + 1).drop_last() =~= orig.subrange(0, k as int));
            k = k + 1;
        }
        assert(orig.subrange(0, k as int) =~= orig);
        out
    }
}

/// The entry of one character in a night order list.
pub open spec fn night_entry(c: CharacterView) -> Seq<char> {
    "<div class=\"night-order-entry\">"@ + (if c.image.len() > 0 {
        "<img src=\""@ + c.image[0] + "\" />"@
    } else {
        "<div></div>"@
    }) + "<p>"@ + c.name + "</p></div>"@
}

pub open spec fn night_entries(cs: Seq<CharacterView>) -> Seq<char>
    decreases cs.len(),
{
    if cs.len() == 0 {
        Seq::empty()
    } else {
        night_entries(cs.drop_last()) + night_entry(cs.last())
    }
}

/// A night order list under `header`.
pub open spec fn night_order_list(header: Seq<char>, cs: Seq<CharacterView>) -> Seq<char> {
    "<div class=\"night-order-list\"><h3 class=\"night-order-type\">"@ + header
        + "</h3><div class=\"night-order-list-container\">"@ + night_entries(cs) + "</div></div>"@
}

fn push_night_order_list(out: &mut String, header: &str, cs: &Vec<Character>)
    ensures
        final(out)@ == old(out)@ + night_order_list(header@, character_views(cs@)),
{
    let ghost s0 = out@;
    out.append("<div class=\"night-order-list\"><h3 class=\"night-order-type\">");
    out.append(header);
    out.append("</h3><div class=\"night-order-list-container\">");
    let ghost start = out@;
    let ghost cv = character_views(cs@);
    let mut i: usize = 0;
    while i < cs.len()
        invariant
            i <= cs@.len(),
            cv == character_views(cs@),
            out@ == start + night_entries(cv.subrange(0, i as int)),
        decreases cs@.len() - i,
    {
        let c = &cs[i];
        let ghost before = out@;
        out.append("<div class=\"night-order-entry\">");
        if c.image.len() > 0 {
            out.append("<img src=\"");
            out.append(c.image[0].as_str());
            out.append("\" />");
        } else {
            out.append("<div></div>");
        }
        out.append("<p>");
        out.append(c.name.as_str());
        out.append("</p></div>");
        assert(cv.subrange(0, i + 1).drop_last() =~= cv.subrange(0, i as int));
        assert(out@ =~= before + night_entry(cv[i as int]));
        i = i + 1;
    }
    assert(cv.subrange(0, cv.len() as int) =~= cv);
    out.append("</div></div>");
    assert(out@ =~= s0 + night_order_list(header@, cv));
}

/// The night order page: the list of the first night, then that of other
/// nights.
pub open spec fn night_order_page(
    cs: Seq<CharacterView>,
    first_special: Seq<CharacterView>,
    other_special: Seq<CharacterView>,
) -> Seq<char> {
    page_start("night-order"@, None)
        + "<h2 class=\"night-order\">NIGHT ORDER</h2><div class=\"night-order-container\">"@
        + night_order_list("FIRST NIGHT"@, night_list(cs, first_special, true)) + night_order_list(
        "OTHER NIGHTS"@,
        night_list(cs, other_special, false),
    ) + page_end()
}

/// The almanac of a script: its head with `style`, the side bar, then in the
/// main part the introduction, a page for each character and the night order
/// page.
pub open spec fn almanac(
    s: crate::script::ScriptView,
    first_special: Seq<CharacterView>,
    other_special: Seq<CharacterView>,
    style: Seq<char>,
) -> Seq<char> {
    head(s.name, style) + aside(s.characters) + "<main>"@ + intro_page(s.intro) + character_pages(
        s.characters,
    ) + night_order_page(s.characters, first_special, other_special) + "</main>"@
        + "</body></html>"@
}

pub open spec fn character_pages(cs: Seq<CharacterView>) -> Seq<char>
    decreases cs.len(),
{
    if cs.len() == 0 {
        Seq::empty()
    } else {
        character_pages(cs.drop_last()) + character_page(cs.last())
    }
}

impl Script {
    fn push_night_order_page(
        &self,
        out: &mut String,
        first_night_special: &Vec<Character>,
        other_night_special: &Vec<Character>,
    )
        ensures
            final(out)@ == old(out)@ + night_order_page(
                self@.characters,
                character_views(first_night_special@),
                character_views(other_night_special@),
            ),
    {
        let ghost s0 = out@;
        push_page_start(out, "night-order", None);
        out.append("<h2 class=\"night-order\">NIGHT ORDER</h2><div class=\"night-order-container\">");
        let ghost s1 = out@;
        let first = self.night_order(first_night_special, true);
        push_night_order_list(out, "FIRST NIGHT", &first);
        let other = self.night_order(other_night_special, false);
        push_night_order_list(out, "OTHER NIGHTS", &other);
        let ghost s2 = out@;
        push_page_end(out);
        assert(out@ =~= s0 + night_order_page(
            self@.characters,
            character_views(first_night_special@),
            character_views(other_night_special@),
        ));
    }

    /// The almanac page of the script, with `style` as its style sheet and
    /// the built-in characters of each night's order.
    pub fn write_html(
        &self,
        first_night_special: &Vec<Character>,
        other_night_special: &Vec<Character>,
        style: &str,
    ) -> (r: String)
        ensures
            r@ == almanac(
                self@,
                character_views(first_night_special@),
                character_views(other_night_special@),
                style@,
            ),
    {
        let mut out = crate::text::string_of(
            crate::text::to_chars(
                "<!DOCTYPE html><html lang=\"en\"><head><meta charset=\"UTF-8\"><meta name=\"viewport\" content=\"width=device-width, initial-scale=1.0\"><title>",
            ).as_slice(),
        );
        out.append(self.name.as_str());
        out.append("</title><style>");
        out.append(style);
        out.append("</style></head><body>");
        let ghost h = out@;
        assert(h =~= head(self@.name, style@));
        push_aside(&mut out, &self.characters);
        out.append("<main>");
        push_intro_page(&mut out, &self.almanac.intro);
        let ghost s1 = out@;
        let ghost cv = self@.characters;
        let mut i: usize = 0;
        while i < self.characters.len()
            invariant
                i <= self.characters@.len(),
                cv == self@.characters,
                out@ == s1 + character_pages(cv.subrange(0, i as int)),
            decreases self.characters@.len() - i,
        {
            let ghost before = out@;
            push_character_page(&mut out, &self.characters[i]);
            assert(cv.subrange(0, i + 1).drop_last() =~= cv.subrange(0, i as int));
            assert(out@ =~= before + character_page(cv[i as int]));
            i = i + 1;
        }
        assert(cv.subrange(0, cv.len() as int) =~= cv);
        let ghost s2 = out@;
        self.push_night_order_page(&mut out, first_night_special, other_night_special);
        out.append("</main>");
        out.append("</body></html>");
        assert(out@ =~= almanac(
            self@,
            character_views(first_night_special@),
            character_views(other_night_special@),
            style@,
        ));
        out
    }
}

} // verus!
