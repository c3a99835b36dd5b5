//! The trade store: an in-memory table of trade records, merged by
//! participant name, with one notification subscriber slot per direction.
//!
//! Feeding a line to [`Model::try_add`] classifies it, merges it into the
//! record of an already-known participant (refreshing only `last_message`),
//! or extracts its fields and creates a new record; every created or merged
//! record is handed synchronously to the subscriber of its direction. A line
//! without a trade marker is ignored; a trade-marked line from an unknown
//! participant that no pattern recognizes is rejected with
//! [`ModelError::ParseError`]. Record identifiers are drawn so that none
//! is ever issued twice for the lifetime of the store, removals included.
use crate::classify::{
    classify, classify_spec, from_marker, lemma_direction_mapping_incoming,
    lemma_direction_mapping_outgoing, to_marker, ClassifiedV, TradeType,
};
use crate::text::is_word_char;
use crate::patterns::{extract, extract_spec, ExtractedFieldsV};
use crate::text::view_opt;
use vstd::prelude::*;

verus! {

/// One evolving trade conversation with a single counterpart. All fields are
/// set when the record is created; only `last_message` changes afterwards.
#[derive(Debug)]
pub struct TradeInfo {
    pub id: String,
    pub typ: TradeType,
    pub item_name: String,
    pub player_name: String,
    pub time: String,
    pub last_message: String,
    pub league: String,
    pub item2_name: Option<String>,
    pub cost_number: Option<String>,
    pub cost_currency: Option<String>,
    pub stash: Option<String>,
    pub left: Option<String>,
    pub top: Option<String>,
}

/// The view of a trade record.
pub struct TradeInfoV {
    pub id: Seq<char>,
    pub typ: TradeType,
    pub item_name: Seq<char>,
    pub player_name: Seq<char>,
    pub time: Seq<char>,
    pub last_message: Seq<char>,
    pub league: Seq<char>,
    pub item2_name: Option<Seq<char>>,
    pub cost_number: Option<Seq<char>>,
    pub cost_currency: Option<Seq<char>>,
    pub stash: Option<Seq<char>>,
    pub left: Option<Seq<char>>,
    pub top: Option<Seq<char>>,
}

impl View for TradeInfo {
    type V = TradeInfoV;

    open spec fn view(&self) -> TradeInfoV {
        TradeInfoV {
            id: self.id@,
            typ: self.typ,
            item_name: self.item_name@,
            player_name: self.player_name@,
            time: self.time@,
            last_message: self.last_message@,
            league: self.league@,
            item2_name: view_opt(self.item2_name),
            cost_number: view_opt(self.cost_number),
            cost_currency: view_opt(self.cost_currency),
            stash: view_opt(self.stash),
            left: view_opt(self.left),
            top: view_opt(self.top),
        }
    }
}

/// Why a line could not become a trade record.
#[derive(Debug)]
pub enum ModelError {
    /// The line carried a trade marker, its participant was unknown, and no
    /// extraction pattern recognized the message: the payload is the line.
    ParseError(String),
}

impl ModelError {
    /// A readable description of the failure.
    pub fn message(&self) -> (r: String)
        ensures
            self matches ModelError::ParseError(l) ==> r@ == "can't parse line: "@ + l@,
    {
        match self {
            ModelError::ParseError(l) => {
                let mut m = String::new();
                m.append("can't parse line: ");
                m.append(l.as_str());
                proof {
                    assert(m@ =~= "can't parse line: "@ + l@);
                }
                m
            },
        }
    }
}

/// The two subscriber slots, at most one callback per direction. Verus
/// cannot reason about boxed closures, so the slots live behind this opaque
/// holder and the functions touching it are trusted; the ghost notification
/// history on [`Model`] records what was handed to them.
#[verifier::external_body]
pub struct CallbackSlots {
    incoming: Box<dyn Fn(&TradeInfo) + Send>,
    outgoing: Box<dyn Fn(&TradeInfo) + Send>,
}

impl CallbackSlots {
    /// Relies on `Box::new` alone: both slots start as callbacks that do
    /// nothing.
    #[verifier::external_body]
    fn empty() -> CallbackSlots {
        CallbackSlots { incoming: Box::new(|_| ()), outgoing: Box::new(|_| ()) }
    }

    /// Relies on `Box::new` alone: replaces the incoming-slot callback.
    #[verifier::external_body]
    fn set_incoming<F: Fn(&TradeInfo) + Send + 'static>(&mut self, cb: F) {
        self.incoming = Box::new(cb);
    }

    /// Relies on `Box::new` alone: replaces the outgoing-slot callback.
    #[verifier::external_body]
    fn set_outgoing<F: Fn(&TradeInfo) + Send + 'static>(&mut self, cb: F) {
        self.outgoing = Box::new(cb);
    }

    /// Relies on the `Fn` call through the box: hands the record to the
    /// incoming-slot callback, synchronously, on this thread.
    #[verifier::external_body]
    fn notify_incoming(&self, t: &TradeInfo) {
        (self.incoming)(t)
    }

    /// Relies on the `Fn` call through the box: hands the record to the
    /// outgoing-slot callback, synchronously, on this thread.
    #[verifier::external_body]
    fn notify_outgoing(&self, t: &TradeInfo) {
        (self.outgoing)(t)
    }
}

/// Relies on uuid's `Uuid::new_v4` and its `Display` form: a fresh random
/// identifier in the 36-character hyphenated form. Nothing more is assumed
/// of it — in particular not that two calls differ — so the store checks
/// each draw against every identifier it has ever issued.
#[verifier::external_body]
fn fresh_trade_id() -> (r: String)
    ensures
        r@.len() == 36,
{
    uuid::Uuid::new_v4().to_string()
}

/// Relies on chrono's `Local::now` and `NaiveTime::format` with `%H:%M`:
/// the local time of day as five characters, hours and minutes both
/// zero-padded to two digits.
#[verifier::external_body]
fn local_time_hhmm() -> (r: String)
    ensures
        r@.len() == 5,
{
    chrono::Local::now().time().format("%H:%M").to_string()
}

// ---------------------------------------------------------------------------
// The store.
// ---------------------------------------------------------------------------

/// The view of the store: the records, in insertion order; the history of
/// every notification handed to a subscriber slot, oldest first; and every
/// identifier ever issued to a record, whether or not that record still
/// stands — identifiers are never reused for the lifetime of the store.
pub struct ModelV {
    pub trades: Seq<TradeInfoV>,
    pub notified: Seq<(TradeType, TradeInfoV)>,
    pub issued: Seq<Seq<char>>,
}

/// The in-memory trade store.
pub struct Model {
    trades: Vec<TradeInfo>,
    slots: CallbackSlots,
    notified: Ghost<Seq<(TradeType, TradeInfoV)>>,
    issued: Vec<String>,
}

impl View for Model {
    type V = ModelV;

    closed spec fn view(&self) -> ModelV {
        ModelV {
            trades: self.trades@.map_values(|t: TradeInfo| t@),
            notified: self.notified@,
            issued: self.issued@.map_values(|s: String| s@),
        }
    }
}

/// First record whose participant name is `name`, scanning from `i`.
pub open spec fn idx_by_name_from(ts: Seq<TradeInfoV>, name: Seq<char>, i: int) -> Option<int>
    decreases ts.len() - i + 1,
{
    if 0 <= i && i < ts.len() {
        if ts[i].player_name == name {
            Some(i)
        } else {
            idx_by_name_from(ts, name, i + 1)
        }
    } else {
        None
    }
}

pub open spec fn idx_by_name(ts: Seq<TradeInfoV>, name: Seq<char>) -> Option<int> {
    idx_by_name_from(ts, name, 0)
}

pub proof fn lemma_idx_by_name_props(ts: Seq<TradeInfoV>, name: Seq<char>, i: int)
    requires
        0 <= i,
    ensures
        match idx_by_name_from(ts, name, i) {
            Some(j) => i <= j < ts.len() && ts[j].player_name == name && forall|k: int|
                i <= k < j ==> ts[k].player_name != name,
            None => forall|k: int| i <= k < ts.len() ==> ts[k].player_name != name,
        },
    decreases ts.len() - i + 1,
{
    if i < ts.len() && ts[i].player_name != name {
        lemma_idx_by_name_props(ts, name, i + 1);
    }
}

/// First record whose identifier is `id`, scanning from `i`.
pub open spec fn idx_by_id_from(ts: Seq<TradeInfoV>, id: Seq<char>, i: int) -> Option<int>
    decreases ts.len() - i + 1,
{
    if 0 <= i && i < ts.len() {
        if ts[i].id == id {
            Some(i)
        } else {
            idx_by_id_from(ts, id, i + 1)
        }
    } else {
        None
    }
}

pub open spec fn idx_by_id(ts: Seq<TradeInfoV>, id: Seq<char>) -> Option<int> {
    idx_by_id_from(ts, id, 0)
}

// ---------------------------------------------------------------------------
// One line, at the spec level.
// ---------------------------------------------------------------------------

/// What one submitted line does to the records: the records afterwards, the
/// notifications emitted (in order), whether the line was rejected, and
/// whether a new record was created.
pub struct StepV {
    pub trades: Seq<TradeInfoV>,
    pub notes: Seq<(TradeType, TradeInfoV)>,
    pub rejected: bool,
    pub created: bool,
}

/// `t` with its last message replaced; every other field kept.
pub open spec fn merged_rec(t: TradeInfoV, line: Seq<char>) -> TradeInfoV {
    TradeInfoV { last_message: line, ..t }
}

/// Merging `line` into the record at `j`: only `last_message` changes, and
/// the notification direction is the record's own, set at its creation.
pub open spec fn merge_step(ts: Seq<TradeInfoV>, j: int, line: Seq<char>) -> StepV {
    let r = merged_rec(ts[j], line);
    StepV { trades: ts.update(j, r), notes: seq![(r.typ, r)], rejected: false, created: false }
}

/// A record as created from one classified, extracted line.
pub open spec fn new_rec(
    c: ClassifiedV,
    f: ExtractedFieldsV,
    id: Seq<char>,
    tm: Seq<char>,
    line: Seq<char>,
) -> TradeInfoV {
    TradeInfoV {
        id: id,
        typ: c.typ,
        item_name: f.item_name,
        player_name: c.name,
        time: tm,
        last_message: line,
        league: f.league,
        item2_name: f.item2_name,
        cost_number: f.cost_number,
        cost_currency: f.cost_currency,
        stash: f.stash,
        left: f.left,
        top: f.top,
    }
}

/// What submitting one line does, given the identifier `id` and the
/// creation time `tm` the step would use if it creates a record. The store
/// only ever hands in an identifier it has never issued, so creation is
/// unconditional here: a recognized line from an unknown participant
/// always creates, and always notifies with the line's own direction.
pub open spec fn step(
    ts: Seq<TradeInfoV>,
    line: Seq<char>,
    id: Seq<char>,
    tm: Seq<char>,
) -> StepV {
    match classify_spec(line) {
        None => StepV { trades: ts, notes: seq![], rejected: false, created: false },
        Some(c) => match idx_by_name(ts, c.name) {
            Some(j) => merge_step(ts, j, line),
            None => match extract_spec(line) {
                None => StepV { trades: ts, notes: seq![], rejected: true, created: false },
                Some(f) => {
                    let r = new_rec(c, f, id, tm, line);
                    StepV {
                        trades: ts.push(r),
                        notes: seq![(c.typ, r)],
                        rejected: false,
                        created: true,
                    }
                },
            },
        },
    }
}

/// `b` is `a` with possibly another last message; everything else equal.
pub open spec fn same_core(a: TradeInfoV, b: TradeInfoV) -> bool {
    &&& b.id == a.id
    &&& b.typ == a.typ
    &&& b.item_name == a.item_name
    &&& b.player_name == a.player_name
    &&& b.time == a.time
    &&& b.league == a.league
    &&& b.item2_name == a.item2_name
    &&& b.cost_number == a.cost_number
    &&& b.cost_currency == a.cost_currency
    &&& b.stash == a.stash
    &&& b.left == a.left
    &&& b.top == a.top
}

/// Every record of `a` still stands in `b`, at its index, with all fields
/// but `last_message` untouched; `b` may have more records after them.
pub open spec fn records_extended(a: Seq<TradeInfoV>, b: Seq<TradeInfoV>) -> bool {
    a.len() <= b.len() && forall|j: int| 0 <= j < a.len() ==> same_core(a[j], #[trigger] b[j])
}

pub proof fn lemma_extended_refl(ts: Seq<TradeInfoV>)
    ensures
        records_extended(ts, ts),
{
}

/// Record extension is transitive across successive submissions.
pub proof fn lemma_extended_trans(a: Seq<TradeInfoV>, b: Seq<TradeInfoV>, c: Seq<TradeInfoV>)
    requires
        records_extended(a, b),
        records_extended(b, c),
    ensures
        records_extended(a, c),
{
    assert forall|j: int| 0 <= j < a.len() implies same_core(a[j], #[trigger] c[j]) by {
        assert(same_core(a[j], b[j]));
        assert(same_core(b[j], c[j]));
    }
}

/// Merging a line into one record keeps every record's core fields.
pub proof fn lemma_extended_update(ts: Seq<TradeInfoV>, j: int, line: Seq<char>)
    requires
        0 <= j < ts.len(),
    ensures
        records_extended(ts, ts.update(j, merged_rec(ts[j], line))),
{
    let ts2 = ts.update(j, merged_rec(ts[j], line));
    assert forall|i: int| 0 <= i < ts.len() implies same_core(ts[i], #[trigger] ts2[i]) by {}
}

/// Appending a record keeps every existing record's core fields.
pub proof fn lemma_extended_push(ts: Seq<TradeInfoV>, r: TradeInfoV)
    ensures
        records_extended(ts, ts.push(r)),
{
    let ts2 = ts.push(r);
    assert forall|i: int| 0 <= i < ts.len() implies same_core(ts[i], #[trigger] ts2[i]) by {}
}

// ---------------------------------------------------------------------------
// Laws of the store.
// ---------------------------------------------------------------------------

/// The records after a whole sequence of lines has been submitted, together
/// with the identifier and creation time each step would draw.
pub open spec fn run_steps(
    ts: Seq<TradeInfoV>,
    lines: Seq<Seq<char>>,
    ids: Seq<Seq<char>>,
    tms: Seq<Seq<char>>,
) -> Seq<TradeInfoV>
    decreases lines.len(),
{
    if lines.len() == 0 {
        ts
    } else {
        run_steps(
            step(ts, lines[0], ids[0], tms[0]).trades,
            lines.drop_first(),
            ids.drop_first(),
            tms.drop_first(),
        )
    }
}

/// While the store holds exactly one record, of this participant, further
/// lines from the same participant only refresh its last message.
proof fn lemma_same_name_merge_run(
    ts: Seq<TradeInfoV>,
    lines: Seq<Seq<char>>,
    ids: Seq<Seq<char>>,
    tms: Seq<Seq<char>>,
    name: Seq<char>,
)
    requires
        ts.len() == 1,
        ts[0].player_name == name,
        forall|i: int|
            0 <= i < lines.len() ==> ((#[trigger] classify_spec(lines[i])) matches Some(c)
                && c.name == name),
    ensures
        ({
            let out = run_steps(ts, lines, ids, tms);
            &&& out.len() == 1
            &&& out[0].player_name == name
            &&& out[0].id == ts[0].id
            &&& out[0].typ == ts[0].typ
            &&& out[0].item_name == ts[0].item_name
            &&& out[0].last_message == if lines.len() == 0 {
                ts[0].last_message
            } else {
                lines.last()
            }
        }),
    decreases lines.len(),
{
    if lines.len() > 0 {
        assert(classify_spec(lines[0]) matches Some(c) && c.name == name);
        assert(idx_by_name_from(ts, name, 0) == Some(0int));
        let sv = step(ts, lines[0], ids[0], tms[0]);
        assert(sv == merge_step(ts, 0, lines[0]));
        let ts1 = sv.trades;
        assert(ts1.len() == 1);
        lemma_same_name_merge_run(ts1, lines.drop_first(), ids.drop_first(), tms.drop_first(), name);
        if lines.len() > 1 {
            assert(lines.drop_first().last() == lines.last());
        }
    }
}

/// At most one record per participant: for any sequence of trade lines all
/// naming the same participant, submitted to an empty store, and whatever
/// identifiers and times the steps draw, exactly one record exists
/// afterwards; its identifier, direction and item come from the first line,
/// and its last message is the text of the last line.
pub proof fn lemma_one_record_per_participant(
    lines: Seq<Seq<char>>,
    ids: Seq<Seq<char>>,
    tms: Seq<Seq<char>>,
    name: Seq<char>,
)
    requires
        lines.len() > 0,
        forall|i: int|
            0 <= i < lines.len() ==> ((#[trigger] classify_spec(lines[i])) matches Some(c)
                && c.name == name),
        extract_spec(lines[0]) is Some,
    ensures
        ({
            let out = run_steps(Seq::empty(), lines, ids, tms);
            &&& out.len() == 1
            &&& out[0].player_name == name
            &&& out[0].id == ids[0]
            &&& out[0].typ == classify_spec(lines[0])->Some_0.typ
            &&& out[0].item_name == extract_spec(lines[0])->Some_0.item_name
            &&& out[0].last_message == lines.last()
        }),
{
    let empty = Seq::<TradeInfoV>::empty();
    assert(classify_spec(lines[0]) matches Some(c) && c.name == name);
    let c = classify_spec(lines[0])->Some_0;
    assert(idx_by_name_from(empty, c.name, 0) is None);
    let sv = step(empty, lines[0], ids[0], tms[0]);
    let r = new_rec(c, extract_spec(lines[0])->Some_0, ids[0], tms[0], lines[0]);
    assert(sv.trades == empty.push(r));
    assert(sv.trades.len() == 1 && sv.trades[0] == r);
    lemma_same_name_merge_run(
        sv.trades,
        lines.drop_first(),
        ids.drop_first(),
        tms.drop_first(),
        name,
    );
    if lines.len() > 1 {
        assert(lines.drop_first().last() == lines.last());
    }
}

/// Direction of what is emitted: a line whose participant is not yet in
/// the store emits notifications of the line's own direction only —
/// incoming lines give incoming notifications, outgoing lines outgoing
/// ones, whatever identifier and time the step draws.
pub proof fn lemma_notification_direction(
    ts: Seq<TradeInfoV>,
    line: Seq<char>,
    id: Seq<char>,
    tm: Seq<char>,
)
    requires
        classify_spec(line) is Some,
        idx_by_name(ts, classify_spec(line)->Some_0.name) is None,
    ensures
        forall|i: int|
            0 <= i < step(ts, line, id, tm).notes.len() ==> (#[trigger] step(
                ts,
                line,
                id,
                tm,
            ).notes[i]).0 == classify_spec(line)->Some_0.typ,
{
}

/// Direction mapping, end to end: a line of the shape `@From name: ...`,
/// submitted while `name` has no record, emits incoming notifications
/// only — whatever identifier and time the step draws.
pub proof fn lemma_from_line_notifies_incoming(
    ts: Seq<TradeInfoV>,
    name: Seq<char>,
    rest: Seq<char>,
    id: Seq<char>,
    tm: Seq<char>,
)
    requires
        name.len() > 0,
        forall|k: int| 0 <= k < name.len() ==> is_word_char(#[trigger] name[k]),
        idx_by_name(ts, name) is None,
    ensures
        ({
            let line = from_marker() + name + seq![':'] + rest;
            forall|i: int|
                0 <= i < step(ts, line, id, tm).notes.len() ==> (#[trigger] step(
                    ts,
                    line,
                    id,
                    tm,
                ).notes[i]).0 == TradeType::Incoming
        }),
{
    lemma_direction_mapping_incoming(name, rest);
    let line = from_marker() + name + seq![':'] + rest;
    lemma_notification_direction(ts, line, id, tm);
}

/// Direction mapping, end to end: a line of the shape `@To name: ...`,
/// submitted while `name` has no record, emits outgoing notifications
/// only.
pub proof fn lemma_to_line_notifies_outgoing(
    ts: Seq<TradeInfoV>,
    name: Seq<char>,
    rest: Seq<char>,
    id: Seq<char>,
    tm: Seq<char>,
)
    requires
        name.len() > 0,
        forall|k: int| 0 <= k < name.len() ==> is_word_char(#[trigger] name[k]),
        idx_by_name(ts, name) is None,
    ensures
        ({
            let line = to_marker() + name + seq![':'] + rest;
            forall|i: int|
                0 <= i < step(ts, line, id, tm).notes.len() ==> (#[trigger] step(
                    ts,
                    line,
                    id,
                    tm,
                ).notes[i]).0 == TradeType::Outgoing
        }),
{
    lemma_direction_mapping_outgoing(name, rest);
    let line = to_marker() + name + seq![':'] + rest;
    lemma_notification_direction(ts, line, id, tm);
}

/// No identifier occurs twice.
pub open spec fn distinct_ids(ids: Seq<Seq<char>>) -> bool {
    forall|i: int, j: int| 0 <= i < j < ids.len() ==> #[trigger] ids[i] != #[trigger] ids[j]
}

/// No two records share a participant name or an identifier.
pub open spec fn distinct_records(ts: Seq<TradeInfoV>) -> bool {
    forall|i: int, j: int|
        0 <= i < j < ts.len() ==> #[trigger] ts[i].player_name != #[trigger] ts[j].player_name
            && ts[i].id != ts[j].id
}

impl Model {
    /// The store's invariant: one record per participant; no identifier
    /// ever issued twice; and every record carries an issued identifier,
    /// so a fresh identifier differs from every record's.
    pub open spec fn wf(self) -> bool {
        &&& distinct_records(self@.trades)
        &&& distinct_ids(self@.issued)
        &&& forall|j: int|
            0 <= j < self@.trades.len() ==> self@.issued.contains(
                (#[trigger] self@.trades[j]).id,
            )
    }

    /// An empty store with do-nothing subscriber slots.
    pub fn new() -> (r: Model)
        ensures
            r@.trades == Seq::<TradeInfoV>::empty(),
            r@.notified == Seq::<(TradeType, TradeInfoV)>::empty(),
            r@.issued == Seq::<Seq<char>>::empty(),
            r.wf(),
    {
        let m = Model {
            trades: Vec::new(),
            slots: CallbackSlots::empty(),
            notified: Ghost(Seq::empty()),
            issued: Vec::new(),
        };
        proof {
            assert(m@.trades =~= Seq::<TradeInfoV>::empty());
            assert(m@.issued =~= Seq::<Seq<char>>::empty());
        }
        m
    }

    /// Replaces the subscriber for outgoing trades; the last subscriber
    /// wins, earlier ones are silently superseded.
    pub fn outgoing_subscribe<F: Fn(&TradeInfo) + Send + 'static>(&mut self, cb: F)
        ensures
            final(self)@ == old(self)@,
            final(self).wf() == old(self).wf(),
    {
        self.slots.set_outgoing(cb);
    }

    /// Replaces the subscriber for incoming trades; the last subscriber
    /// wins, earlier ones are silently superseded.
    pub fn incoming_subscribe<F: Fn(&TradeInfo) + Send + 'static>(&mut self, cb: F)
        ensures
            final(self)@ == old(self)@,
            final(self).wf() == old(self).wf(),
    {
        self.slots.set_incoming(cb);
    }

    /// Merges one more line into the record at `j`: only `last_message`
    /// changes, and the record is handed to the subscriber slot of its own
    /// direction — the one fixed when the record was created.
    fn merge_line(&mut self, j: usize, line: &str)
        requires
            old(self).wf(),
            j < old(self)@.trades.len(),
        ensures
            final(self).wf(),
            final(self)@.trades == merge_step(old(self)@.trades, j as int, line@).trades,
            final(self)@.notified == old(self)@.notified + merge_step(
                old(self)@.trades,
                j as int,
                line@,
            ).notes,
            final(self)@.issued == old(self)@.issued,
    {
        let ghost ts = self@.trades;
        let ghost r = merged_rec(ts[j as int], line@);
        self.trades[j].last_message = line.to_owned();
        assert(self@.trades =~= ts.update(j as int, r));
        let t = self.trades[j].typ;
        match t {
            TradeType::Incoming => self.slots.notify_incoming(&self.trades[j]),
            TradeType::Outgoing => self.slots.notify_outgoing(&self.trades[j]),
        }
        self.notified = Ghost(self.notified@.push((t, r)));
        proof {
            assert(self@.notified =~= old(self)@.notified + merge_step(ts, j as int, line@).notes);
            assert forall|a: int, b: int| 0 <= a < b < self@.trades.len() implies #[trigger] self@.trades[a].player_name != #[trigger] self@.trades[b].player_name
                && self@.trades[a].id != self@.trades[b].id by {
                assert(self@.trades[a].player_name == ts[a].player_name);
                assert(self@.trades[b].player_name == ts[b].player_name);
            }
            assert forall|k: int| 0 <= k < self@.trades.len() implies self@.issued.contains(
                (#[trigger] self@.trades[k]).id,
            ) by {
                assert(self@.trades[k].id == ts[k].id);
            }
        }
    }

    /// Feeds one chat line to the store.
    ///
    /// A line without a trade marker is ignored. A marked line from a
    /// participant that already has a record merges into it: only
    /// `last_message` is refreshed, nothing is re-parsed. A marked line from
    /// an unknown participant is run through the pattern library: if no
    /// pattern matches it is rejected with `ParseError`, otherwise a record
    /// is created from the extracted fields, a fresh identifier and the
    /// current local time. Every merged or created record is handed to the
    /// subscriber slot of its direction before this returns.
    pub fn try_add(&mut self, line: &str) -> (r: Result<(), ModelError>)
        requires
            old(self).wf(),
        ensures
            final(self).wf(),
            exists|id: Seq<char>, tm: Seq<char>|
                {
                    let sv = #[trigger] step(old(self)@.trades, line@, id, tm);
                    &&& id.len() >= 36
                    &&& tm.len() == 5
                    &&& final(self)@.trades == sv.trades
                    &&& final(self)@.notified == old(self)@.notified + sv.notes
                    &&& sv.rejected == (r is Err)
                    &&& (sv.created ==> !old(self)@.issued.contains(id) && final(self)@.issued
                        == old(self)@.issued.push(id))
                    &&& (!sv.created ==> final(self)@.issued == old(self)@.issued)
                },
            classify_spec(line@) is None ==> final(self)@ == old(self)@ && r is Ok,
            r matches Err(ModelError::ParseError(l)) ==> l@ == line@,
            records_extended(old(self)@.trades, final(self)@.trades),
            old(self)@.notified.is_prefix_of(final(self)@.notified),
            old(self)@.issued.is_prefix_of(final(self)@.issued),
    {
        let ghost ts0 = self@.trades;
        let cls = classify(line);
        let (typ, name) = match cls {
            None => {
                proof {
                    let idw = Seq::<char>::new(36, |i: int| '0');
                    let tmw = Seq::<char>::new(5, |i: int| '0');
                    let sv = step(ts0, line@, idw, tmw);
                    assert(self@.notified =~= self@.notified + sv.notes);
                    lemma_extended_refl(ts0);
                    assert(self@.notified.take(self@.notified.len() as int) =~= self@.notified);
                    assert(self@.issued.take(self@.issued.len() as int) =~= self@.issued);
                }
                return Ok(());
            },
            Some(v) => (v.0, v.2),
        };
        let ghost c = classify_spec(line@)->Some_0;
        assert(c.name == name@);
        match self.find_by_name(&name) {
            Some(j) => {
                self.merge_line(j, line);
                proof {
                    let idw = Seq::<char>::new(36, |i: int| '0');
                    let tmw = Seq::<char>::new(5, |i: int| '0');
                    let sv = step(ts0, line@, idw, tmw);
                    assert(sv == merge_step(ts0, j as int, line@));
                    lemma_extended_update(ts0, j as int, line@);
                    assert(self@.notified.take(old(self)@.notified.len() as int)
                        =~= old(self)@.notified);
                    assert(self@.issued.take(old(self)@.issued.len() as int)
                        =~= old(self)@.issued);
                }
                Ok(())
            },
            None => {
                match extract(line) {
                    None => {
                        proof {
                            let idw = Seq::<char>::new(36, |i: int| '0');
                            let tmw = Seq::<char>::new(5, |i: int| '0');
                            let sv = step(ts0, line@, idw, tmw);
                            assert(sv.rejected);
                            assert(self@.notified =~= self@.notified + sv.notes);
                            lemma_extended_refl(ts0);
                            assert(self@.notified.take(self@.notified.len() as int)
                                =~= self@.notified);
                            assert(self@.issued.take(self@.issued.len() as int)
                                =~= self@.issued);
                        }
                        Err(ModelError::ParseError(line.to_owned()))
                    },
                    Some(f) => {
                        let ghost fv = extract_spec(line@)->Some_0;
                        let ghost is0 = self@.issued;
                        let id = self.draw_fresh_id();
                        let tm = local_time_hhmm();
                        let ghost idv = id@;
                        let ghost tmv = tm@;
                        let ghost rv = new_rec(c, fv, idv, tmv, line@);
                        self.issued.push(id.clone());
                        assert(self@.issued =~= is0.push(idv));
                        let rec = TradeInfo {
                            id,
                            typ,
                            item_name: f.item_name,
                            player_name: name,
                            time: tm,
                            last_message: line.to_owned(),
                            league: f.league,
                            item2_name: f.item2_name,
                            cost_number: f.cost_number,
                            cost_currency: f.cost_currency,
                            stash: f.stash,
                            left: f.left,
                            top: f.top,
                        };
                        assert(rec@ == rv);
                        self.trades.push(rec);
                        assert(self@.trades =~= ts0.push(rv));
                        let n = self.trades.len();
                        match typ {
                            TradeType::Incoming => self.slots.notify_incoming(
                                &self.trades[n - 1],
                            ),
                            TradeType::Outgoing => self.slots.notify_outgoing(
                                &self.trades[n - 1],
                            ),
                        }
                        self.notified = Ghost(self.notified@.push((typ, rv)));
                        proof {
                            let sv = step(ts0, line@, idv, tmv);
                            assert(sv.trades == ts0.push(rv));
                            assert(sv.created);
                            assert(self@.notified =~= old(self)@.notified + sv.notes);
                            lemma_idx_by_name_props(ts0, c.name, 0);
                            assert forall|a: int, b: int|
                                0 <= a < b < self@.trades.len() implies #[trigger]
                                self@.trades[a].player_name != #[trigger]
                                self@.trades[b].player_name && self@.trades[a].id
                                != self@.trades[b].id by {
                                if b < ts0.len() {
                                } else {
                                    assert(self@.trades[b] == rv);
                                    assert(self@.trades[a] == ts0[a]);
                                    assert(is0.contains(ts0[a].id));
                                    assert(!is0.contains(idv));
                                }
                            }
                            assert forall|a: int, b: int|
                                0 <= a < b < self@.issued.len() implies #[trigger]
                                self@.issued[a] != #[trigger] self@.issued[b] by {
                                if b < is0.len() {
                                    assert(self@.issued[a] == is0[a]);
                                    assert(self@.issued[b] == is0[b]);
                                } else {
                                    assert(self@.issued[b] == idv);
                                    assert(self@.issued[a] == is0[a]);
                                    assert(is0.contains(is0[a]));
                                }
                            }
                            assert forall|k: int|
                                0 <= k < self@.trades.len() implies self@.issued.contains(
                                (#[trigger] self@.trades[k]).id,
                            ) by {
                                if k < ts0.len() {
                                    assert(is0.contains(ts0[k].id));
                                    let w = choose|w: int|
                                        0 <= w < is0.len() && is0[w] == ts0[k].id;
                                    assert(self@.issued[w] == ts0[k].id);
                                } else {
                                    assert(self@.issued[is0.len() as int] == idv);
                                }
                            }
                            lemma_extended_push(ts0, rv);
                            assert(self@.notified.take(old(self)@.notified.len() as int)
                                =~= old(self)@.notified);
                            assert(self@.issued.take(old(self)@.issued.len() as int)
                                =~= old(self)@.issued);
                        }
                        Ok(())
                    },
                }
            },
        }
    }

    /// Drops the record with this identifier; a no-op when no record has
    /// it. Past notifications are not revoked.
    pub fn remove_trade(&mut self, id: &String)
        requires
            old(self).wf(),
        ensures
            final(self).wf(),
            match idx_by_id(old(self)@.trades, id@) {
                Some(k) => final(self)@.trades == old(self)@.trades.remove(k),
                None => final(self)@.trades == old(self)@.trades,
            },
            final(self)@.notified == old(self)@.notified,
            final(self)@.issued == old(self)@.issued,
    {
        let ghost ts = self@.trades;
        proof {
            assert(ts == old(self)@.trades);
            assert(distinct_records(ts));
        }
        match self.find_by_id(id) {
            Some(k) => {
                self.trades.remove(k);
                proof {
                    assert(self@.trades =~= ts.remove(k as int));
                    assert(distinct_records(ts));
                    assert forall|a: int, b: int|
                        0 <= a < b < self@.trades.len() implies #[trigger]
                        self@.trades[a].player_name != #[trigger] self@.trades[b].player_name
                        && self@.trades[a].id != self@.trades[b].id by {
                        let a0: int = if a < k { a } else { a + 1 };
                        let b0: int = if b < k { b } else { b + 1 };
                        assert(self@.trades[a] == ts[a0]);
                        assert(self@.trades[b] == ts[b0]);
                        assert(a0 < b0 < ts.len());
                        assert(distinct_records(ts));
                        assert(ts[a0].player_name != ts[b0].player_name);
                        assert(ts[a0].id != ts[b0].id);
                    }
                    assert forall|j: int|
                        0 <= j < self@.trades.len() implies self@.issued.contains(
                        (#[trigger] self@.trades[j]).id,
                    ) by {
                        let j0: int = if j < k { j } else { j + 1 };
                        assert(self@.trades[j] == ts[j0]);
                    }
                }
            },
            None => {},
        }
    }

    /// The records, in insertion order.
    pub fn records(&self) -> (r: &Vec<TradeInfo>)
        ensures
            r@.map_values(|t: TradeInfo| t@) == self@.trades,
    {
        &self.trades
    }

    /// Whether this identifier was ever issued by this store.
    fn issued_contains(&self, id: &String) -> (r: bool)
        ensures
            r == self@.issued.contains(id@),
    {
        let mut j: usize = 0;
        while j < self.issued.len()
            invariant
                j <= self.issued.len(),
                self@.issued.len() == self.issued.len(),
                forall|k: int| 0 <= k < j ==> self@.issued[k] != id@,
            decreases self.issued.len() - j,
        {
            assert(self@.issued[j as int] == self.issued@[j as int]@);
            if self.issued[j] == *id {
                assert(self@.issued.contains(id@));
                return true;
            }
            j += 1;
        }
        assert(!self@.issued.contains(id@));
        false
    }

    /// An upper bound on the length of every issued identifier.
    fn max_issued_len(&self) -> (r: usize)
        ensures
            forall|k: int|
                0 <= k < self@.issued.len() ==> (#[trigger] self@.issued[k]).len() <= r,
    {
        let mut m: usize = 0;
        let mut j: usize = 0;
        while j < self.issued.len()
            invariant
                j <= self.issued.len(),
                self@.issued.len() == self.issued.len(),
                forall|k: int| 0 <= k < j ==> (#[trigger] self@.issued[k]).len() <= m,
            decreases self.issued.len() - j,
        {
            assert(self@.issued[j as int] == self.issued@[j as int]@);
            let l = self.issued[j].as_str().unicode_len();
            if l > m {
                m = l;
            }
            j += 1;
        }
        m
    }

    /// Draws an identifier this store has never issued. The identifier
    /// generator supplies the draw; should it ever repeat an issued
    /// identifier, the candidate is extended with further draws until it is
    /// fresh — a candidate longer than every issued identifier cannot
    /// collide, which also bounds the loop.
    fn draw_fresh_id(&self) -> (r: String)
        ensures
            !self@.issued.contains(r@),
            r@.len() >= 36,
    {
        let mut id = fresh_trade_id();
        let bound = self.max_issued_len();
        loop
            invariant
                36 <= id@.len() <= bound + 37,
                forall|k: int|
                    0 <= k < self@.issued.len() ==> (#[trigger] self@.issued[k]).len() <= bound,
            ensures
                !self@.issued.contains(id@),
                id@.len() >= 36,
            decreases bound + 37 - id@.len(),
        {
            if !self.issued_contains(&id) {
                break ;
            }
            proof {
                let k = choose|k: int|
                    0 <= k < self@.issued.len() && self@.issued[k] == id@;
                assert(self@.issued[k].len() <= bound);
                assert(id@.len() <= bound);
                reveal_strlit("-");
            }
            id.append("-");
            let extra = fresh_trade_id();
            id.append(extra.as_str());
        }
        id
    }

    /// First index holding a record of this participant.
    fn find_by_name(&self, name: &String) -> (r: Option<usize>)
        ensures
            match r {
                Some(j) => j < self.trades@.len() && idx_by_name(self@.trades, name@) == Some(
                    j as int,
                ),
                None => idx_by_name(self@.trades, name@) is None,
            },
    {
        let ghost ts = self@.trades;
        let mut j: usize = 0;
        while j < self.trades.len()
            invariant
                j <= self.trades.len(),
                ts == self@.trades,
                ts.len() == self.trades.len(),
                idx_by_name(ts, name@) == idx_by_name_from(ts, name@, j as int),
            decreases self.trades.len() - j,
        {
            assert(ts[j as int] == self.trades@[j as int]@);
            if self.trades[j].player_name == *name {
                return Some(j);
            }
            j += 1;
        }
        None
    }

    /// First index holding the record with this identifier.
    fn find_by_id(&self, id: &String) -> (r: Option<usize>)
        ensures
            match r {
                Some(j) => j < self.trades@.len() && idx_by_id(self@.trades, id@) == Some(
                    j as int,
                ),
                None => idx_by_id(self@.trades, id@) is None,
            },
    {
        let ghost ts = self@.trades;
        let mut j: usize = 0;
        while j < self.trades.len()
            invariant
                j <= self.trades.len(),
                ts == self@.trades,
                ts.len() == self.trades.len(),
                idx_by_id(ts, id@) == idx_by_id_from(ts, id@, j as int),
            decreases self.trades.len() - j,
        {
            assert(ts[j as int] == self.trades@[j as int]@);
            if self.trades[j].id == *id {
                return Some(j);
            }
            j += 1;
        }
        None
    }
}

} // verus!
