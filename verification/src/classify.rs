//! The line classifier: decides whether a chat line is a trade message and,
//! if so, in which direction it travels and who the counterpart is.
//!
//! A line is trade-related exactly when it contains a marker of the shape
//! `@From <guild> name:` or `@To <guild> name:`; the guild tag (angle
//! brackets included) is optional and ends at the first closing angle
//! bracket, `From` means an incoming trade, `To` an outgoing one. The
//! participant name is the run of word characters before the terminating
//! colon, and is taken over verbatim, whatever script it is written in.
use crate::text::{
    chars_vec, eq_at, find_from, find_sub, is_space_char, is_word_char, lemma_find_from_props,
    lemma_run_end_value, match_at, space_run, space_run_end, view_opt, word_run, word_run_end,
};
use vstd::prelude::*;

verus! {

/// The direction of a trade conversation: whether the counterpart contacted
/// the log owner, or the log owner contacted the counterpart.
#[derive(Clone, Copy, Debug, PartialEq, Eq, Structural)]
pub enum TradeType {
    Incoming,
    Outgoing,
}

/// What classification yields for a trade-related line.
pub struct ClassifiedV {
    pub typ: TradeType,
    pub guild: Option<Seq<char>>,
    pub name: Seq<char>,
}

pub open spec fn from_marker() -> Seq<char> {
    "@From "@
}

pub open spec fn to_marker() -> Seq<char> {
    "@To "@
}

/// The tail of the marker once the direction word has been consumed: an
/// optional `<guild>` tag, spaces, then the participant name and a colon.
pub open spec fn parse_after_marker(s: Seq<char>, t: TradeType, j0: int) -> Option<ClassifiedV> {
    if j0 < s.len() && s[j0] == '<' {
        match find_from(s, seq!['>'], j0 + 1) {
            None => None,
            Some(g) => {
                if g == j0 + 1 {
                    None
                } else {
                    finish_marker(s, t, Some(s.subrange(j0 + 1, g)), g + 1)
                }
            },
        }
    } else {
        finish_marker(s, t, None, j0)
    }
}

pub open spec fn finish_marker(
    s: Seq<char>,
    t: TradeType,
    guild: Option<Seq<char>>,
    j1: int,
) -> Option<ClassifiedV> {
    let j2 = space_run_end(s, j1);
    let ne = word_run_end(s, j2);
    if ne == j2 {
        None
    } else if !(ne < s.len() && s[ne] == ':') {
        None
    } else {
        Some(ClassifiedV { typ: t, guild, name: s.subrange(j2, ne) })
    }
}

/// One attempt to read the whole marker at position `i`.
pub open spec fn parse_marker_at(s: Seq<char>, i: int) -> Option<ClassifiedV> {
    if match_at(s, from_marker(), i) {
        parse_after_marker(s, TradeType::Incoming, i + from_marker().len() as int)
    } else if match_at(s, to_marker(), i) {
        parse_after_marker(s, TradeType::Outgoing, i + to_marker().len() as int)
    } else {
        None
    }
}

/// The marker attempted at every position from `i` on; the first position
/// where it reads completely wins.
pub open spec fn classify_from(s: Seq<char>, i: int) -> Option<ClassifiedV>
    decreases s.len() - i + 1,
{
    if 0 <= i && i < s.len() {
        if parse_marker_at(s, i) is Some {
            parse_marker_at(s, i)
        } else {
            classify_from(s, i + 1)
        }
    } else {
        None
    }
}

pub open spec fn classify_spec(s: Seq<char>) -> Option<ClassifiedV> {
    classify_from(s, 0)
}

pub open spec fn is_trade_spec(s: Seq<char>) -> bool {
    classify_spec(s) is Some
}

// ---------------------------------------------------------------------------
// Executable classification.
// ---------------------------------------------------------------------------

/// The marker attempted at one position.
fn parse_marker_exec(line: &str, cs: &Vec<char>, i: usize) -> (r: Option<
    (TradeType, Option<String>, String),
>)
    requires
        cs@ == line@,
        i < cs.len(),
    ensures
        match r {
            Some(v) => parse_marker_at(line@, i as int) == Some(
                ClassifiedV { typ: v.0, guild: view_opt(v.1), name: v.2@ },
            ),
            None => parse_marker_at(line@, i as int) is None,
        },
{
    let fm = chars_vec("@From ");
    let tm = chars_vec("@To ");
    let hit_from = fm.len() <= cs.len() - i && eq_at(cs, &fm, i);
    let hit_to = !hit_from && tm.len() <= cs.len() - i && eq_at(cs, &tm, i);
    let t: TradeType;
    let j0: usize;
    if hit_from {
        t = TradeType::Incoming;
        j0 = i + fm.len();
    } else if hit_to {
        t = TradeType::Outgoing;
        j0 = i + tm.len();
    } else {
        return None;
    }
    let guild: Option<String>;
    let j1: usize;
    if j0 < cs.len() && cs[j0] == '<' {
        let mut gt: Vec<char> = Vec::new();
        gt.push('>');
        assert(gt@ =~= seq!['>']);
        let g = match find_sub(cs, &gt, j0 + 1) {
            Some(g) => g,
            None => {
                return None;
            },
        };
        proof {
            lemma_find_from_props(cs@, gt@, j0 + 1);
        }
        if g == j0 + 1 {
            return None;
        }
        guild = Some(line.substring_char(j0 + 1, g).to_owned());
        j1 = g + 1;
    } else {
        guild = None;
        j1 = j0;
    }
    let j2 = space_run(cs, j1);
    let ne = word_run(cs, j2);
    if ne == j2 {
        return None;
    }
    if ne == cs.len() {
        return None;
    }
    if cs[ne] != ':' {
        return None;
    }
    let name = line.substring_char(j2, ne).to_owned();
    Some((t, guild, name))
}

/// Classifies one line: `None` for a line without a trade marker (not an
/// error), otherwise the direction, the guild tag without its brackets if
/// one is present, and the participant name, verbatim.
pub fn classify(line: &str) -> (r: Option<(TradeType, Option<String>, String)>)
    ensures
        match r {
            Some(v) => classify_spec(line@) == Some(
                ClassifiedV { typ: v.0, guild: view_opt(v.1), name: v.2@ },
            ),
            None => classify_spec(line@) is None,
        },
{
    let cs = chars_vec(line);
    let mut i: usize = 0;
    while i < cs.len()
        invariant
            cs@ == line@,
            i <= cs.len(),
            classify_spec(line@) == classify_from(line@, i as int),
        decreases cs.len() - i,
    {
        let attempt = parse_marker_exec(line, &cs, i);
        if attempt.is_some() {
            return attempt;
        }
        i += 1;
    }
    None
}

/// Whether the line carries a trade marker at all.
pub fn is_trade(line: &str) -> (r: bool)
    ensures
        r == is_trade_spec(line@),
{
    classify(line).is_some()
}

/// The direction, optional guild tag and participant name of a line already
/// known to carry a trade marker.
pub fn type_person_info(line: &str) -> (r: (TradeType, Option<String>, String))
    requires
        is_trade_spec(line@),
    ensures
        classify_spec(line@) == Some(
            ClassifiedV { typ: r.0, guild: view_opt(r.1), name: r.2@ },
        ),
{
    classify(line).unwrap()
}

// ---------------------------------------------------------------------------
// Direction mapping, as a law of the classifier: a line that begins
// `@From name:` always classifies as incoming, one that begins `@To name:`
// always as outgoing, for every non-empty participant name made of word
// characters — and the name is taken over verbatim.
// ---------------------------------------------------------------------------

/// `@From name: rest` classifies as an incoming trade with exactly `name`.
pub proof fn lemma_direction_mapping_incoming(name: Seq<char>, rest: Seq<char>)
    requires
        name.len() > 0,
        forall|k: int| 0 <= k < name.len() ==> is_word_char(#[trigger] name[k]),
    ensures
        classify_spec(from_marker() + name + seq![':'] + rest) == Some(
            ClassifiedV { typ: TradeType::Incoming, guild: None, name },
        ),
{
    let s = from_marker() + name + seq![':'] + rest;
    let m = from_marker().len() as int;
    assert(s.subrange(0, m) =~= from_marker());
    assert(match_at(s, from_marker(), 0));
    lemma_marker_tail(s, TradeType::Incoming, from_marker(), name, rest);
    assert(parse_marker_at(s, 0) == Some(
        ClassifiedV { typ: TradeType::Incoming, guild: None, name },
    ));
    assert(s.len() > 0);
}

/// `@To name: rest` classifies as an outgoing trade with exactly `name`.
pub proof fn lemma_direction_mapping_outgoing(name: Seq<char>, rest: Seq<char>)
    requires
        name.len() > 0,
        forall|k: int| 0 <= k < name.len() ==> is_word_char(#[trigger] name[k]),
    ensures
        classify_spec(to_marker() + name + seq![':'] + rest) == Some(
            ClassifiedV { typ: TradeType::Outgoing, guild: None, name },
        ),
{
    let s = to_marker() + name + seq![':'] + rest;
    let m = to_marker().len() as int;
    assert(s.subrange(0, m) =~= to_marker());
    assert(match_at(s, to_marker(), 0));
    if match_at(s, from_marker(), 0) {
        reveal_strlit("@From ");
        reveal_strlit("@To ");
        assert(s.subrange(0, from_marker().len() as int)[1] == from_marker()[1]);
        assert(s[1] == 'T');
        assert(false);
    }
    lemma_marker_tail(s, TradeType::Outgoing, to_marker(), name, rest);
    assert(parse_marker_at(s, 0) == Some(
        ClassifiedV { typ: TradeType::Outgoing, guild: None, name },
    ));
    assert(s.len() > 0);
}

/// After a marker whose direction word ends at `m`, a word-character name
/// followed by a colon is read back verbatim.
proof fn lemma_marker_tail(
    s: Seq<char>,
    t: TradeType,
    pre: Seq<char>,
    name: Seq<char>,
    rest: Seq<char>,
)
    requires
        name.len() > 0,
        forall|k: int| 0 <= k < name.len() ==> is_word_char(#[trigger] name[k]),
        s == pre + name + seq![':'] + rest,
    ensures
        parse_after_marker(s, t, pre.len() as int) == Some(
            ClassifiedV { typ: t, guild: None, name },
        ),
{
    let m = pre.len() as int;
    let ne = m + name.len() as int;
    assert(s.len() == m + name.len() + 1 + rest.len());
    assert forall|k: int| m <= k < ne implies s[k] == name[k - m] by {}
    assert(s[ne] == ':');
    assert(!is_word_char('<'));
    assert(s[m] == name[0]);
    assert(s[m] != '<');
    assert(!is_space_char(s[m]));
    lemma_run_end_value(s, m, m, |c: char| is_space_char(c));
    assert(space_run_end(s, m) == m);
    assert(!is_word_char(':'));
    lemma_run_end_value(s, m, ne, |c: char| is_word_char(c));
    assert(word_run_end(s, m) == ne);
    assert(s.subrange(m, ne) =~= name);
}

} // verus!
