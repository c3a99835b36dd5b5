//! The pattern library: the fixed, ordered set of line shapes that extract
//! structured trade fields.
//!
//! Three message shapes are recognized, tried strictly in this order (the
//! partial shape is a subset of the full shape, so the full one must win):
//!
//! 1. full:    `... buy your <item> listed for <cost> <currency> in <league> ...`
//! 2. partial: `... buy your <item> in <league> ...`
//! 3. barter:  `... buy your <item> for my <item2> in <league> ...`
//!
//! A separate stash shape `(stash tab "<stash>"; position: left <l>, top <t>)`
//! is applied to the same line; its absence never fails extraction.
//!
//! Each shape is anchored at the first occurrence of its leading phrase; an
//! item name is the longest run of item characters, split at the last
//! occurrence of the separating phrase inside that run. Each shape makes
//! one attempt, with no backtracking: a line whose last separator
//! occurrence does not parse through is not retried at an earlier one —
//! it simply falls to the next shape in the order.
use crate::text::{
    chars_vec, cost_run, cost_run_end, currency_run, currency_run_end, digit_run, digit_run_end,
    eq_at, find_from, find_last_in, find_last_sub, find_sub, item2_run, item2_run_end, item_run,
    item_run_end, lemma_find_from_props, lemma_find_last_in_props, match_at, view_opt, word_run,
    word_run_end,
};
use vstd::prelude::*;

verus! {

// ---------------------------------------------------------------------------
// The literal phrases of the grammar.
// ---------------------------------------------------------------------------

pub open spec fn buy_prefix() -> Seq<char> {
    "Hi, I would like to buy your "@
}

pub open spec fn barter_prefix() -> Seq<char> {
    "Hi, I'd like to buy your "@
}

pub open spec fn listed_sep() -> Seq<char> {
    " listed for "@
}

pub open spec fn in_sep() -> Seq<char> {
    " in "@
}

pub open spec fn for_my_sep() -> Seq<char> {
    " for my "@
}

pub open spec fn stash_open() -> Seq<char> {
    "(stash tab \""@
}

pub open spec fn stash_mid() -> Seq<char> {
    "\"; position: left "@
}

pub open spec fn top_sep() -> Seq<char> {
    ", top "@
}

// ---------------------------------------------------------------------------
// Field records.
// ---------------------------------------------------------------------------

/// Fields captured by one of the three message shapes.
pub struct MsgFieldsV {
    pub item: Seq<char>,
    pub item2: Option<Seq<char>>,
    pub cost: Option<Seq<char>>,
    pub currency: Option<Seq<char>>,
    pub league: Seq<char>,
}

/// Fields captured by the stash shape.
pub struct StashV {
    pub stash: Seq<char>,
    pub left: Seq<char>,
    pub top: Seq<char>,
}

/// Everything extraction yields for one line.
pub struct ExtractedFieldsV {
    pub item_name: Seq<char>,
    pub item2_name: Option<Seq<char>>,
    pub cost_number: Option<Seq<char>>,
    pub cost_currency: Option<Seq<char>>,
    pub league: Seq<char>,
    pub stash: Option<Seq<char>>,
    pub left: Option<Seq<char>>,
    pub top: Option<Seq<char>>,
}

/// Executable counterpart of `MsgFieldsV`.
pub struct MsgFields {
    pub item: String,
    pub item2: Option<String>,
    pub cost: Option<String>,
    pub currency: Option<String>,
    pub league: String,
}

impl View for MsgFields {
    type V = MsgFieldsV;

    open spec fn view(&self) -> MsgFieldsV {
        MsgFieldsV {
            item: self.item@,
            item2: view_opt(self.item2),
            cost: view_opt(self.cost),
            currency: view_opt(self.currency),
            league: self.league@,
        }
    }
}

/// Executable counterpart of `ExtractedFieldsV`.
pub struct ExtractedFields {
    pub item_name: String,
    pub item2_name: Option<String>,
    pub cost_number: Option<String>,
    pub cost_currency: Option<String>,
    pub league: String,
    pub stash: Option<String>,
    pub left: Option<String>,
    pub top: Option<String>,
}

impl View for ExtractedFields {
    type V = ExtractedFieldsV;

    open spec fn view(&self) -> ExtractedFieldsV {
        ExtractedFieldsV {
            item_name: self.item_name@,
            item2_name: view_opt(self.item2_name),
            cost_number: view_opt(self.cost_number),
            cost_currency: view_opt(self.cost_currency),
            league: self.league@,
            stash: view_opt(self.stash),
            left: view_opt(self.left),
            top: view_opt(self.top),
        }
    }
}

// ---------------------------------------------------------------------------
// The shapes, at the spec level.
// ---------------------------------------------------------------------------

/// The full shape parsed right after a `buy_prefix` occurrence at `i`.
pub open spec fn full_from(s: Seq<char>, i: int) -> Option<MsgFieldsV> {
    let b = i + buy_prefix().len() as int;
    let run = item_run_end(s, b);
    match find_last_in(s, listed_sep(), b + 1, run) {
        None => None,
        Some(k) => {
            let c0 = k + listed_sep().len() as int;
            let ce = cost_run_end(s, c0);
            if ce == c0 {
                None
            } else if !(ce < s.len() && s[ce] == ' ') {
                None
            } else {
                let cu0 = ce + 1;
                let cue = currency_run_end(s, cu0);
                if cue == cu0 {
                    None
                } else if !match_at(s, in_sep(), cue) {
                    None
                } else {
                    let l0 = cue + in_sep().len() as int;
                    let le = word_run_end(s, l0);
                    if le == l0 {
                        None
                    } else {
                        Some(
                            MsgFieldsV {
                                item: s.subrange(b, k),
                                item2: None,
                                cost: Some(s.subrange(c0, ce)),
                                currency: Some(s.subrange(cu0, cue)),
                                league: s.subrange(l0, le),
                            },
                        )
                    }
                }
            }
        },
    }
}

pub open spec fn full_spec(s: Seq<char>) -> Option<MsgFieldsV> {
    match find_from(s, buy_prefix(), 0) {
        None => None,
        Some(i) => full_from(s, i),
    }
}

/// The partial shape (no price) parsed after a `buy_prefix` occurrence at `i`.
pub open spec fn partial_from(s: Seq<char>, i: int) -> Option<MsgFieldsV> {
    let b = i + buy_prefix().len() as int;
    let run = item_run_end(s, b);
    match find_last_in(s, in_sep(), b + 1, run) {
        None => None,
        Some(k) => {
            let l0 = k + in_sep().len() as int;
            let le = word_run_end(s, l0);
            if le == l0 {
                None
            } else {
                Some(
                    MsgFieldsV {
                        item: s.subrange(b, k),
                        item2: None,
                        cost: None,
                        currency: None,
                        league: s.subrange(l0, le),
                    },
                )
            }
        },
    }
}

pub open spec fn partial_spec(s: Seq<char>) -> Option<MsgFieldsV> {
    match find_from(s, buy_prefix(), 0) {
        None => None,
        Some(i) => partial_from(s, i),
    }
}

/// The barter shape (item for item) parsed after a `barter_prefix` at `i`.
pub open spec fn barter_from(s: Seq<char>, i: int) -> Option<MsgFieldsV> {
    let b = i + barter_prefix().len() as int;
    let run = item_run_end(s, b);
    match find_last_in(s, for_my_sep(), b + 1, run) {
        None => None,
        Some(k) => {
            let i2 = k + for_my_sep().len() as int;
            let run2 = item2_run_end(s, i2);
            match find_last_in(s, in_sep(), i2 + 1, run2) {
                None => None,
                Some(k2) => {
                    let l0 = k2 + in_sep().len() as int;
                    let le = word_run_end(s, l0);
                    if le == l0 {
                        None
                    } else {
                        Some(
                            MsgFieldsV {
                                item: s.subrange(b, k),
                                item2: Some(s.subrange(i2, k2)),
                                cost: None,
                                currency: None,
                                league: s.subrange(l0, le),
                            },
                        )
                    }
                },
            }
        },
    }
}

pub open spec fn barter_spec(s: Seq<char>) -> Option<MsgFieldsV> {
    match find_from(s, barter_prefix(), 0) {
        None => None,
        Some(i) => barter_from(s, i),
    }
}

/// The message shapes in priority order: full, then partial, then barter.
pub open spec fn message_spec(s: Seq<char>) -> Option<MsgFieldsV> {
    if full_spec(s) is Some {
        full_spec(s)
    } else if partial_spec(s) is Some {
        partial_spec(s)
    } else {
        barter_spec(s)
    }
}

/// The stash shape, applied independently of the message shapes.
pub open spec fn stash_spec(s: Seq<char>) -> Option<StashV> {
    match find_from(s, stash_open(), 0) {
        None => None,
        Some(o) => {
            let b = o + stash_open().len() as int;
            match find_last_in(s, stash_mid(), b, s.len() as int) {
                None => None,
                Some(m) => {
                    let d0 = m + stash_mid().len() as int;
                    let de = digit_run_end(s, d0);
                    if de == d0 {
                        None
                    } else if !match_at(s, top_sep(), de) {
                        None
                    } else {
                        let t0 = de + top_sep().len() as int;
                        let te = digit_run_end(s, t0);
                        if te == t0 {
                            None
                        } else if !(te < s.len() && s[te] == ')') {
                            None
                        } else {
                            Some(
                                StashV {
                                    stash: s.subrange(b, m),
                                    left: s.subrange(d0, de),
                                    top: s.subrange(t0, te),
                                },
                            )
                        }
                    }
                },
            }
        },
    }
}

/// What extraction yields for a whole line: the first message shape that
/// matches, with the stash fields merged in when the stash shape matches too.
pub open spec fn extract_spec(s: Seq<char>) -> Option<ExtractedFieldsV> {
    match message_spec(s) {
        None => None,
        Some(m) => {
            let st = stash_spec(s);
            Some(
                ExtractedFieldsV {
                    item_name: m.item,
                    item2_name: m.item2,
                    cost_number: m.cost,
                    cost_currency: m.currency,
                    league: m.league,
                    stash: match st {
                        Some(v) => Some(v.stash),
                        None => None,
                    },
                    left: match st {
                        Some(v) => Some(v.left),
                        None => None,
                    },
                    top: match st {
                        Some(v) => Some(v.top),
                        None => None,
                    },
                },
            )
        },
    }
}

/// A line matching both the full and the partial shape is always parsed by
/// the full one, so its price fields are populated: the declared pattern
/// order is a disambiguation policy, not an accident.
pub proof fn lemma_pattern_priority(s: Seq<char>)
    requires
        full_spec(s) is Some,
        partial_spec(s) is Some,
    ensures
        message_spec(s) == full_spec(s),
        message_spec(s)->Some_0.cost is Some,
        message_spec(s)->Some_0.currency is Some,
{
}

// ---------------------------------------------------------------------------
// Executable extraction.
// ---------------------------------------------------------------------------

/// The full shape, on the characters `cs` of `line`.
fn match_full(line: &str, cs: &Vec<char>) -> (r: Option<MsgFields>)
    requires
        cs@ == line@,
    ensures
        match r {
            Some(f) => full_spec(line@) == Some(f@),
            None => full_spec(line@) is None,
        },
{
    let pf = chars_vec("Hi, I would like to buy your ");
    let o = match find_sub(cs, &pf, 0) {
        Some(o) => o,
        None => {
            return None;
        },
    };
    proof {
        lemma_find_from_props(cs@, pf@, 0);
        assert(find_from(cs@, pf@, 0) == Some(o as int));
        assert(match_at(cs@, pf@, o as int));
        assert(cs.len() == cs@.len());
        assert(o + pf@.len() <= cs@.len());
    }
    let b = o + pf.len();
    let run = item_run(cs, b);
    if run <= b {
        return None;
    }
    let sep = chars_vec(" listed for ");
    let k = match find_last_sub(cs, &sep, b + 1, run) {
        Some(k) => k,
        None => {
            return None;
        },
    };
    proof {
        lemma_find_last_in_props(cs@, sep@, b + 1, run as int);
    }
    let c0 = k + sep.len();
    let ce = cost_run(cs, c0);
    if ce == c0 {
        return None;
    }
    if ce == cs.len() {
        return None;
    }
    if cs[ce] != ' ' {
        return None;
    }
    let cu0 = ce + 1;
    let cue = currency_run(cs, cu0);
    if cue == cu0 {
        return None;
    }
    let insep = chars_vec(" in ");
    if insep.len() > cs.len() - cue {
        return None;
    }
    if !eq_at(cs, &insep, cue) {
        return None;
    }
    let l0 = cue + insep.len();
    let le = word_run(cs, l0);
    if le == l0 {
        return None;
    }
    let item = line.substring_char(b, k).to_owned();
    let cost = line.substring_char(c0, ce).to_owned();
    let currency = line.substring_char(cu0, cue).to_owned();
    let league = line.substring_char(l0, le).to_owned();
    Some(MsgFields { item, item2: None, cost: Some(cost), currency: Some(currency), league })
}

/// The partial shape, on the characters `cs` of `line`.
fn match_partial(line: &str, cs: &Vec<char>) -> (r: Option<MsgFields>)
    requires
        cs@ == line@,
    ensures
        match r {
            Some(f) => partial_spec(line@) == Some(f@),
            None => partial_spec(line@) is None,
        },
{
    let pf = chars_vec("Hi, I would like to buy your ");
    let o = match find_sub(cs, &pf, 0) {
        Some(o) => o,
        None => {
            return None;
        },
    };
    proof {
        lemma_find_from_props(cs@, pf@, 0);
        assert(find_from(cs@, pf@, 0) == Some(o as int));
        assert(match_at(cs@, pf@, o as int));
        assert(cs.len() == cs@.len());
        assert(o + pf@.len() <= cs@.len());
    }
    let b = o + pf.len();
    let run = item_run(cs, b);
    if run <= b {
        return None;
    }
    let insep = chars_vec(" in ");
    let k = match find_last_sub(cs, &insep, b + 1, run) {
        Some(k) => k,
        None => {
            return None;
        },
    };
    proof {
        lemma_find_last_in_props(cs@, insep@, b + 1, run as int);
    }
    let l0 = k + insep.len();
    let le = word_run(cs, l0);
    if le == l0 {
        return None;
    }
    let item = line.substring_char(b, k).to_owned();
    let league = line.substring_char(l0, le).to_owned();
    Some(MsgFields { item, item2: None, cost: None, currency: None, league })
}

/// The barter shape, on the characters `cs` of `line`.
fn match_barter(line: &str, cs: &Vec<char>) -> (r: Option<MsgFields>)
    requires
        cs@ == line@,
    ensures
        match r {
            Some(f) => barter_spec(line@) == Some(f@),
            None => barter_spec(line@) is None,
        },
{
    let pf = chars_vec("Hi, I'd like to buy your ");
    let o = match find_sub(cs, &pf, 0) {
        Some(o) => o,
        None => {
            return None;
        },
    };
    proof {
        lemma_find_from_props(cs@, pf@, 0);
        assert(find_from(cs@, pf@, 0) == Some(o as int));
        assert(match_at(cs@, pf@, o as int));
        assert(cs.len() == cs@.len());
        assert(o + pf@.len() <= cs@.len());
    }
    let b = o + pf.len();
    let run = item_run(cs, b);
    if run <= b {
        return None;
    }
    let sep = chars_vec(" for my ");
    let k = match find_last_sub(cs, &sep, b + 1, run) {
        Some(k) => k,
        None => {
            return None;
        },
    };
    proof {
        lemma_find_last_in_props(cs@, sep@, b + 1, run as int);
    }
    let i2 = k + sep.len();
    let run2 = item2_run(cs, i2);
    if run2 <= i2 {
        return None;
    }
    let insep = chars_vec(" in ");
    let k2 = match find_last_sub(cs, &insep, i2 + 1, run2) {
        Some(k2) => k2,
        None => {
            return None;
        },
    };
    proof {
        lemma_find_last_in_props(cs@, insep@, i2 + 1, run2 as int);
    }
    let l0 = k2 + insep.len();
    let le = word_run(cs, l0);
    if le == l0 {
        return None;
    }
    let item = line.substring_char(b, k).to_owned();
    let item2 = line.substring_char(i2, k2).to_owned();
    let league = line.substring_char(l0, le).to_owned();
    Some(MsgFields { item, item2: Some(item2), cost: None, currency: None, league })
}

/// The stash shape, on the characters `cs` of `line`.
fn match_stash(line: &str, cs: &Vec<char>) -> (r: Option<(String, String, String)>)
    requires
        cs@ == line@,
    ensures
        match r {
            Some(t) => stash_spec(line@) == Some(
                StashV { stash: t.0@, left: t.1@, top: t.2@ },
            ),
            None => stash_spec(line@) is None,
        },
{
    let open = chars_vec("(stash tab \"");
    let o = match find_sub(cs, &open, 0) {
        Some(o) => o,
        None => {
            return None;
        },
    };
    proof {
        lemma_find_from_props(cs@, open@, 0);
        assert(find_from(cs@, open@, 0) == Some(o as int));
        assert(match_at(cs@, open@, o as int));
        assert(cs.len() == cs@.len());
        assert(o + open@.len() <= cs@.len());
    }
    let b = o + open.len();
    let mid = chars_vec("\"; position: left ");
    let m = match find_last_sub(cs, &mid, b, cs.len()) {
        Some(m) => m,
        None => {
            return None;
        },
    };
    proof {
        lemma_find_last_in_props(cs@, mid@, b as int, cs@.len() as int);
    }
    let d0 = m + mid.len();
    let de = digit_run(cs, d0);
    if de == d0 {
        return None;
    }
    let tsep = chars_vec(", top ");
    if tsep.len() > cs.len() - de {
        return None;
    }
    if !eq_at(cs, &tsep, de) {
        return None;
    }
    let t0 = de + tsep.len();
    let te = digit_run(cs, t0);
    if te == t0 {
        return None;
    }
    if te == cs.len() {
        return None;
    }
    if cs[te] != ')' {
        return None;
    }
    let stash = line.substring_char(b, m).to_owned();
    let left = line.substring_char(d0, de).to_owned();
    let top = line.substring_char(t0, te).to_owned();
    Some((stash, left, top))
}

/// Runs the pattern library on one line: the first message shape that
/// matches wins, and the stash shape contributes its fields when present.
/// `None` means no shape recognized the line.
pub fn extract(line: &str) -> (r: Option<ExtractedFields>)
    ensures
        match r {
            Some(f) => extract_spec(line@) == Some(f@),
            None => extract_spec(line@) is None,
        },
{
    let cs = chars_vec(line);
    let msg = match match_full(line, &cs) {
        Some(m) => m,
        None => match match_partial(line, &cs) {
            Some(m) => m,
            None => match match_barter(line, &cs) {
                Some(m) => m,
                None => {
                    return None;
                },
            },
        },
    };
    let st = match_stash(line, &cs);
    let (stash, left, top) = match st {
        Some((a, b, c)) => (Some(a), Some(b), Some(c)),
        None => (None, None, None),
    };
    Some(
        ExtractedFields {
            item_name: msg.item,
            item2_name: msg.item2,
            cost_number: msg.cost,
            cost_currency: msg.currency,
            league: msg.league,
            stash,
            left,
            top,
        },
    )
}

} // verus!
