//! The pending-message data model: the delivery mode, the message record,
//! and the deadline-ordered pending store.

use vstd::prelude::*;

use crate::codec::{
    dec_chars, json_escape, json_escape_str, lemma_dec_round_trip, parse_dec_u64, parse_u64_dec,
    strip_hyphens, u64_to_dec_string,
};
use crate::NANOS_PER_SECOND;

verus! {

// ---------------------------------------------------------------------------
// Mode
// ---------------------------------------------------------------------------

/// How a due message is delivered: appended to a list for exactly one
/// consumer, or published to all current subscribers of a channel.
#[derive(Clone, Copy, Debug, PartialEq, Eq, Structural)]
pub enum Mode {
    P2P,
    Broadcast,
}

/// The canonical (lower-case) spelling of a mode.
pub open spec fn mode_str(m: Mode) -> Seq<char> {
    match m {
        Mode::P2P => "p2p"@,
        Mode::Broadcast => "broadcast"@,
    }
}

/// `a` is `b`, or `b` is a lower-case ASCII letter and `a` its upper-case
/// form.
pub open spec fn char_eq_ignore_ascii_case(a: char, b: char) -> bool {
    a == b || (97 <= b as u32 <= 122 && a as u32 + 32 == b as u32)
}

/// `s` spells `target` up to ASCII case, where `target` is lower-case.
pub open spec fn matches_ignore_case(s: Seq<char>, target: Seq<char>) -> bool {
    s.len() == target.len() && forall|i: int|
        0 <= i < s.len() ==> char_eq_ignore_ascii_case(#[trigger] s[i], target[i])
}

/// What parsing a mode spelling means: `"p2p"` and `"broadcast"` up to ASCII
/// case, and nothing else.
pub open spec fn parse_mode(s: Seq<char>) -> Option<Mode> {
    if matches_ignore_case(s, "p2p"@) {
        Some(Mode::P2P)
    } else if matches_ignore_case(s, "broadcast"@) {
        Some(Mode::Broadcast)
    } else {
        None
    }
}

/// Compares `s` against a lower-case `target` up to ASCII case.
fn eq_ignore_case(s: &str, target: &str) -> (r: bool)
    ensures
        r == matches_ignore_case(s@, target@),
{
    let n = s.unicode_len();
    if n != target.unicode_len() {
        return false;
    }
    let mut i: usize = 0;
    while i < n
        invariant
            0 <= i <= n,
            n == s@.len() == target@.len(),
            forall|k: int| 0 <= k < i ==> char_eq_ignore_ascii_case(#[trigger] s@[k], target@[k]),
        decreases n - i,
    {
        let a = s.get_char(i);
        let b = target.get_char(i);
        let ok = a == b || (97 <= b as u32 && b as u32 <= 122 && a as u32 + 32 == b as u32);
        if !ok {
            proof {
                assert(!char_eq_ignore_ascii_case(s@[i as int], target@[i as int]));
            }
            return false;
        }
        i = i + 1;
    }
    true
}

impl Mode {
    /// Parses a mode spelling, accepting `"p2p"` and `"broadcast"` in any
    /// ASCII case and rejecting every other string.
    pub fn from_str(s: &str) -> (r: Result<Mode, ModeError>)
        ensures
            match r {
                Ok(m) => parse_mode(s@) == Some(m),
                Err(_) => parse_mode(s@) is None,
            },
    {
        if eq_ignore_case(s, "p2p") {
            Ok(Mode::P2P)
        } else if eq_ignore_case(s, "broadcast") {
            Ok(Mode::Broadcast)
        } else {
            Err(ModeError)
        }
    }

    /// Renders the canonical spelling of the mode.
    pub fn to_string(&self) -> (r: String)
        ensures
            r@ == mode_str(*self),
    {
        match self {
            Mode::P2P => String::from_str("p2p"),
            Mode::Broadcast => String::from_str("broadcast"),
        }
    }
}

/// Parsing inverts rendering: the canonical spelling of a mode parses back to
/// that mode, for both modes.
pub proof fn lemma_mode_round_trip(m: Mode)
    ensures
        parse_mode(mode_str(m)) == Some(m),
{
    reveal_strlit("p2p");
    reveal_strlit("broadcast");
    match m {
        Mode::P2P => {
            assert(matches_ignore_case("p2p"@, "p2p"@));
        },
        Mode::Broadcast => {
            assert(matches_ignore_case("broadcast"@, "broadcast"@));
            assert(!matches_ignore_case("broadcast"@, "p2p"@));
        },
    }
}

/// The spelling did not parse as a mode.
#[derive(Debug)]
pub struct ModeError;

impl ModeError {
    /// The human-readable account of the error.
    pub fn message(&self) -> (r: String)
        ensures
            r@ == "invalid mode, must be `p2p` or `broadcast`"@,
    {
        String::from_str("invalid mode, must be `p2p` or `broadcast`")
    }
}

// ---------------------------------------------------------------------------
// Msg
// ---------------------------------------------------------------------------

/// One admitted, not-yet-dispatched message. Immutable once admitted: it
/// lives in the pending store until its deadline passes, is handed once to
/// the delivery adapter, and is then discarded.
#[derive(Debug)]
pub struct Msg {
    /// Admission receipt: a fresh random token, 32 hexadecimal digits.
    pub id: String,
    /// Destination list or channel name; opaque to the engine.
    pub queue_name: String,
    /// Opaque payload; never interpreted by the engine.
    pub msg: String,
    /// Absolute deadline, in nanoseconds since the epoch, after which the
    /// message becomes eligible for dispatch.
    pub delay_time: u64,
    /// Delivery mode, fixed at creation.
    pub mode: Mode,
}

/// The mathematical value of a message: every field by value.
#[verifier::ext_equal]
pub ghost struct MsgV {
    pub id: Seq<char>,
    pub queue_name: Seq<char>,
    pub msg: Seq<char>,
    pub delay_time: u64,
    pub mode: Mode,
}

impl View for Msg {
    type V = MsgV;

    open spec fn view(&self) -> MsgV {
        MsgV {
            id: self.id@,
            queue_name: self.queue_name@,
            msg: self.msg@,
            delay_time: self.delay_time,
            mode: self.mode,
        }
    }
}

/// Relies on `uuid::Uuid::new_v4` and its `Display` form: a fresh random
/// version-4 identifier rendered as 32 lower-case hexadecimal digits and 4
/// hyphens, 36 characters in all. The value itself is random, so nothing more
/// is stated of it.
#[verifier::external_body]
pub(crate) fn fresh_uuid_string() -> (r: String)
    ensures
        r@.len() == 36,
{
    uuid::Uuid::new_v4().to_string()
}

impl Msg {
    /// Builds a message with a freshly generated identifier: a random token
    /// rendered without its hyphens.
    pub fn new(queue_name: String, msg: String, delay_time: u64, mode: Mode) -> (r: Msg)
        ensures
            r.queue_name@ == queue_name@,
            r.msg@ == msg@,
            r.delay_time == delay_time,
            r.mode == mode,
    {
        let token = fresh_uuid_string();
        let id = strip_hyphens(token.as_str());
        Msg { id, queue_name, msg, delay_time, mode }
    }

    /// Renders the dispatch payload: the message as a JSON record with the
    /// fields `id`, `queue_name`, `msg`, `delay_time` (seconds since the
    /// epoch) and `mode`.
    pub fn to_json(&self) -> (out: String)
        ensures
            out@ == msg_json(self@),
    {
        let mut out = String::from_str("{\"id\":\"");
        let id_esc = json_escape_str(self.id.as_str());
        out.append(id_esc.as_str());
        out.append("\",\"queue_name\":\"");
        let queue_esc = json_escape_str(self.queue_name.as_str());
        out.append(queue_esc.as_str());
        out.append("\",\"msg\":\"");
        let msg_esc = json_escape_str(self.msg.as_str());
        out.append(msg_esc.as_str());
        out.append("\",\"delay_time\":");
        let secs = serialize_time(self.delay_time);
        let secs_dec = u64_to_dec_string(secs);
        out.append(secs_dec.as_str());
        out.append(",\"mode\":\"");
        let mode_s = self.mode.to_string();
        out.append(mode_s.as_str());
        out.append("\"}");
        proof {
            assert(out@ =~= msg_json(self@));
        }
        out
    }
}

/// Seconds since the epoch for a deadline held in nanoseconds: the precision
/// the dispatch payload carries.
pub fn serialize_time(nanos: u64) -> (s: u64)
    ensures
        s == nanos / NANOS_PER_SECOND,
{
    nanos / NANOS_PER_SECOND
}

/// The dispatch payload as text: a JSON record of the message, its deadline
/// rendered in whole seconds since the epoch and its strings escaped for
/// JSON.
pub open spec fn msg_json(m: MsgV) -> Seq<char> {
    "{\"id\":\""@ + json_escape(m.id) + "\",\"queue_name\":\""@ + json_escape(m.queue_name)
        + "\",\"msg\":\""@ + json_escape(m.msg) + "\",\"delay_time\":"@ + dec_chars(
        (m.delay_time / NANOS_PER_SECOND) as nat,
    ) + ",\"mode\":\""@ + mode_str(m.mode) + "\"}"@
}

// ---------------------------------------------------------------------------
// MsgHeap
// ---------------------------------------------------------------------------

/// The pending store: a multiset of messages held in non-decreasing deadline
/// order, supporting insert, peek-minimum and remove-minimum.
#[derive(Debug)]
pub struct MsgHeap {
    entries: Vec<Msg>,
}

impl View for MsgHeap {
    type V = Seq<MsgV>;

    closed spec fn view(&self) -> Seq<MsgV> {
        self.entries@.map_values(|m: Msg| m@)
    }
}

impl MsgHeap {
    /// The ordering invariant: entries stand in non-decreasing deadline
    /// order, so the front entry is always an earliest one.
    pub open spec fn wf(&self) -> bool {
        forall|i: int, j: int|
            0 <= i <= j < self@.len() ==> #[trigger] self@[i].delay_time
                <= #[trigger] self@[j].delay_time
    }

    /// Builds an empty store.
    pub fn new() -> (r: MsgHeap)
        ensures
            r@ =~= Seq::<MsgV>::empty(),
            r.wf(),
    {
        MsgHeap { entries: Vec::new() }
    }

    pub fn len(&self) -> (r: usize)
        ensures
            r == self@.len(),
    {
        self.entries.len()
    }

    pub fn is_empty(&self) -> (r: bool)
        ensures
            r == (self@.len() == 0),
    {
        self.entries.len() == 0
    }

    /// Inserts a message, keeping the deadline order; the contents grow by
    /// exactly that message.
    pub fn push(&mut self, m: Msg)
        requires
            old(self).wf(),
        ensures
            final(self).wf(),
            final(self)@.to_multiset() == old(self)@.to_multiset().insert(m@),
            final(self)@.len() == old(self)@.len() + 1,
    {
        broadcast use vstd::seq_lib::group_to_multiset_ensures;

        let ghost pre = self@;
        let mut i: usize = 0;
        let n = self.entries.len();
        while i < n && self.entries[i].delay_time <= m.delay_time
            invariant
                0 <= i <= n,
                n == self@.len(),
                self@ == pre,
                self.entries@.map_values(|e: Msg| e@) == pre,
                forall|k: int| 0 <= k < i ==> #[trigger] pre[k].delay_time <= m.delay_time,
            decreases n - i,
        {
            i = i + 1;
        }
        proof {
            assert(i as int == pre.len() || pre[i as int].delay_time > m.delay_time);
        }
        self.entries.insert(i, m);
        proof {
            pre.insert_ensures(i as int, m@);
            assert(self@ =~= pre.insert(i as int, m@));
            assert forall|p: int, q: int|
                0 <= p <= q < self@.len() implies #[trigger] self@[p].delay_time
                <= #[trigger] self@[q].delay_time by {
                assert(old(self).wf());
                if q < i {
                    assert(self@[p] == pre[p] && self@[q] == pre[q]);
                } else if p > i {
                    assert(self@[p] == pre[p - 1] && self@[q] == pre[q - 1]);
                } else if p < i && q == i {
                    assert(self@[p] == pre[p] && self@[q] == m@);
                } else if p == i && q == i {
                    assert(self@[p] == m@);
                } else if p == i && q > i {
                    assert(self@[p] == m@ && self@[q] == pre[q - 1]);
                } else {
                    assert(p < i && q > i);
                    assert(self@[p] == pre[p] && self@[q] == pre[q - 1]);
                }
            }
            assert(pre.insert(i as int, m@).to_multiset() =~= pre.to_multiset().insert(m@));
        }
    }

    /// Shows the earliest-deadline entry without removing it.
    pub fn peek(&self) -> (r: Option<&Msg>)
        requires
            self.wf(),
        ensures
            match r {
                None => self@.len() == 0,
                Some(m) => {
                    &&& self@.len() > 0
                    &&& m@ == self@[0]
                    &&& forall|k: int|
                        0 <= k < self@.len() ==> m@.delay_time <= #[trigger] self@[k].delay_time
                },
            },
    {
        if self.entries.len() == 0 {
            None
        } else {
            Some(&self.entries[0])
        }
    }

    /// Removes and returns the earliest-deadline entry.
    pub fn pop(&mut self) -> (r: Option<Msg>)
        requires
            old(self).wf(),
        ensures
            final(self).wf(),
            match r {
                None => old(self)@.len() == 0 && final(self)@ == old(self)@,
                Some(m) => {
                    &&& old(self)@.len() > 0
                    &&& m@ == old(self)@[0]
                    &&& final(self)@ =~= old(self)@.drop_first()
                    &&& forall|k: int|
                        0 <= k < old(self)@.len() ==> m@.delay_time <= #[trigger] old(
                            self,
                        )@[k].delay_time
                },
            },
    {
        if self.entries.len() == 0 {
            None
        } else {
            let m = self.entries.remove(0);
            proof {
                assert(self@ =~= old(self)@.drop_first());
            }
            Some(m)
        }
    }
}

// ---------------------------------------------------------------------------
// Durable snapshot
// ---------------------------------------------------------------------------
//
// The pending store is persisted as a flat sequence of text fields: an entry
// count first, then five fields per entry (identifier, queue name, payload,
// deadline in nanoseconds rendered in decimal, and mode spelling). The host's
// durable slot stores and returns these fields verbatim.

/// The five snapshot fields of one entry.
pub open spec fn snapshot_entry(m: MsgV) -> Seq<Seq<char>> {
    seq![m.id, m.queue_name, m.msg, dec_chars(m.delay_time as nat), mode_str(m.mode)]
}

/// The snapshot fields of a sequence of entries, in order.
pub open spec fn snapshot_body(entries: Seq<MsgV>) -> Seq<Seq<char>>
    decreases entries.len(),
{
    if entries.len() == 0 {
        Seq::<Seq<char>>::empty()
    } else {
        snapshot_body(entries.drop_last()) + snapshot_entry(entries.last())
    }
}

/// A full snapshot: the entry count, then the entries' fields.
pub open spec fn snapshot_fields(entries: Seq<MsgV>) -> Seq<Seq<char>>
    recommends
        entries.len() <= u64::MAX,
{
    seq![dec_chars(entries.len())] + snapshot_body(entries)
}

/// What loading one entry's five fields means: the deadline must parse as a
/// decimal `u64` and the mode as a mode spelling; the other fields are taken
/// verbatim.
pub open spec fn parse_entry(f: Seq<Seq<char>>) -> Option<MsgV>
    recommends
        f.len() == 5,
{
    match (parse_dec_u64(f[3]), parse_mode(f[4])) {
        (Some(t), Some(m)) => Some(
            MsgV { id: f[0], queue_name: f[1], msg: f[2], delay_time: t, mode: m },
        ),
        _ => None,
    }
}

/// What loading the entries' fields means: every group of five must parse,
/// and the entries come back in field order.
pub open spec fn parse_body(fields: Seq<Seq<char>>) -> Option<Seq<MsgV>>
    recommends
        fields.len() % 5 == 0,
    decreases fields.len(),
{
    if fields.len() == 0 {
        Some(Seq::<MsgV>::empty())
    } else if fields.len() < 5 {
        None
    } else {
        let prefix = parse_body(fields.take(fields.len() - 5));
        let e = parse_entry(fields.skip(fields.len() - 5));
        match (prefix, e) {
            (Some(es), Some(x)) => Some(es.push(x)),
            _ => None,
        }
    }
}

/// What loading a full snapshot means. An absent snapshot (no fields at all)
/// gracefully defaults to the empty store; a snapshot whose count or fields
/// are malformed is rejected.
pub open spec fn parse_snapshot(fields: Seq<Seq<char>>) -> Option<Seq<MsgV>> {
    if fields.len() == 0 {
        Some(Seq::<MsgV>::empty())
    } else {
        match parse_dec_u64(fields[0]) {
            None => None,
            Some(c) => if fields.len() != 1 + 5 * (c as nat) {
                None
            } else {
                parse_body(fields.skip(1))
            },
        }
    }
}

proof fn lemma_snapshot_body_len(entries: Seq<MsgV>)
    ensures
        snapshot_body(entries).len() == 5 * entries.len(),
    decreases entries.len(),
{
    if entries.len() > 0 {
        lemma_snapshot_body_len(entries.drop_last());
    }
}

proof fn lemma_parse_entry_round_trip(m: MsgV)
    ensures
        parse_entry(snapshot_entry(m)) == Some(m),
{
    lemma_dec_round_trip(m.delay_time);
    lemma_mode_round_trip(m.mode);
    let f = snapshot_entry(m);
    assert(f[3] == dec_chars(m.delay_time as nat));
    assert(f[4] == mode_str(m.mode));
    assert(parse_entry(f)->Some_0 =~= m);
}

proof fn lemma_parse_body_round_trip(entries: Seq<MsgV>)
    ensures
        parse_body(snapshot_body(entries)) == Some(entries),
    decreases entries.len(),
{
    lemma_snapshot_body_len(entries);
    if entries.len() == 0 {
        assert(parse_body(snapshot_body(entries)) == Some(Seq::<MsgV>::empty()));
        assert(entries =~= Seq::<MsgV>::empty());
    } else {
        let body = snapshot_body(entries);
        let dl = entries.drop_last();
        lemma_parse_body_round_trip(dl);
        lemma_parse_entry_round_trip(entries.last());
        lemma_snapshot_body_len(dl);
        assert(body.take(body.len() - 5) =~= snapshot_body(dl));
        assert(body.skip(body.len() - 5) =~= snapshot_entry(entries.last()));
        assert(dl.push(entries.last()) =~= entries);
    }
}

/// The snapshot round trip: saving any sequence of entries and loading the
/// result yields exactly those entries, whatever their fields hold.
pub proof fn lemma_snapshot_round_trip(entries: Seq<MsgV>)
    requires
        entries.len() <= u64::MAX,
    ensures
        parse_snapshot(snapshot_fields(entries)) == Some(entries),
{
    let fields = snapshot_fields(entries);
    lemma_snapshot_body_len(entries);
    lemma_dec_round_trip(entries.len() as u64);
    assert(fields[0] == dec_chars(entries.len()));
    assert(fields.skip(1) =~= snapshot_body(entries));
    lemma_parse_body_round_trip(entries);
}

/// The snapshot held fields that do not load back as a pending store.
#[derive(Debug)]
pub struct SnapshotError;

impl SnapshotError {
    /// The human-readable account of the error.
    pub fn message(&self) -> (r: String)
        ensures
            r@ == "malformed pending-store snapshot"@,
    {
        String::from_str("malformed pending-store snapshot")
    }
}

/// Saves the pending store as snapshot fields: the entry count first, then
/// five fields for each entry in deadline order.
pub fn rdb_save(heap: &MsgHeap) -> (fields: Vec<String>)
    ensures
        fields.deep_view() == snapshot_fields(heap@),
{
    let n = heap.len();
    let mut out: Vec<String> = Vec::new();
    out.push(u64_to_dec_string(n as u64));
    proof {
        assert(out.deep_view() =~= seq![dec_chars(heap@.len())] + snapshot_body(heap@.take(0)));
    }
    let mut j: usize = 0;
    while j < n
        invariant
            0 <= j <= n,
            n == heap@.len(),
            n == heap.entries@.len(),
            heap@ == heap.entries@.map_values(|m: Msg| m@),
            out.deep_view() == seq![dec_chars(heap@.len())] + snapshot_body(
                heap@.take(j as int),
            ),
        decreases n - j,
    {
        let e = &heap.entries[j];
        let ghost pre = out.deep_view();
        out.push(e.id.clone());
        out.push(e.queue_name.clone());
        out.push(e.msg.clone());
        out.push(u64_to_dec_string(e.delay_time));
        out.push(e.mode.to_string());
        proof {
            assert(heap@[j as int] == e@);
            assert(out.deep_view() =~= pre + snapshot_entry(e@));
            assert(heap@.take(j + 1).drop_last() =~= heap@.take(j as int));
            assert(heap@.take(j + 1).last() == heap@[j as int]);
            assert(snapshot_body(heap@.take(j + 1)) == snapshot_body(heap@.take(j as int))
                + snapshot_entry(heap@[j as int]));
            assert(out.deep_view() =~= seq![dec_chars(heap@.len())] + snapshot_body(
                heap@.take(j + 1),
            ));
        }
        j = j + 1;
    }
    proof {
        assert(heap@.take(n as int) =~= heap@);
    }
    out
}

proof fn lemma_parse_body_none_extends(fields: Seq<Seq<char>>, j: int)
    requires
        fields.len() % 5 == 0,
        0 <= 5 * j <= fields.len(),
        parse_body(fields.take(5 * j)) is None,
    ensures
        parse_body(fields) is None,
    decreases fields.len() - 5 * j,
{
    if 5 * j == fields.len() {
        assert(fields.take(5 * j) =~= fields);
    } else {
        assert(5 * j + 5 <= fields.len()) by (nonlinear_arith)
            requires
                fields.len() % 5 == 0,
                5 * j < fields.len(),
        ;
        let t = fields.take(5 * (j + 1));
        assert(t.len() == 5 * j + 5);
        assert(t.take(t.len() - 5) =~= fields.take(5 * j));
        assert(parse_body(t) is None);
        assert(t =~= fields.take(5 * (j + 1)));
        lemma_parse_body_none_extends(fields, j + 1);
    }
}

/// Loads a pending store from snapshot fields. An absent snapshot (no fields)
/// yields the empty store; malformed fields are rejected without panicking.
/// The loaded store holds exactly the entries the fields describe, reordered
/// only as the deadline order requires.
pub fn rdb_load(fields: &Vec<String>) -> (r: Result<MsgHeap, SnapshotError>)
    ensures
        match r {
            Ok(h) => {
                &&& parse_snapshot(fields.deep_view()) is Some
                &&& h@.to_multiset() == parse_snapshot(fields.deep_view())->Some_0.to_multiset()
                &&& h.wf()
            },
            Err(_) => parse_snapshot(fields.deep_view()) is None,
        },
{
    broadcast use vstd::seq_lib::group_to_multiset_ensures;

    let ghost fv = fields.deep_view();
    if fields.len() == 0 {
        let h = MsgHeap::new();
        proof {
            assert(h@.to_multiset() =~= Seq::<MsgV>::empty().to_multiset());
        }
        return Ok(h);
    }
    let count = match parse_u64_dec(fields[0].as_str()) {
        Some(c) => c,
        None => {
            return Err(SnapshotError);
        },
    };
    let n_body = fields.len() - 1;
    if n_body % 5 != 0 || (n_body / 5) as u64 != count {
        proof {
            assert(fv.len() != 1 + 5 * (count as nat)) by (nonlinear_arith)
                requires
                    fv.len() == n_body + 1,
                    n_body % 5 != 0 || (n_body / 5) as u64 != count,
                    n_body == fv.len() - 1,
            ;
        }
        return Err(SnapshotError);
    }
    let k = n_body / 5;
    let ghost body = fv.skip(1);
    proof {
        assert(body.len() == 5 * k);
        assert(fv.len() == 1 + 5 * (count as nat)) by (nonlinear_arith)
            requires
                fv.len() == n_body + 1,
                n_body % 5 == 0,
                (n_body / 5) as u64 == count,
                k == n_body / 5,
        ;
    }
    let mut heap = MsgHeap::new();
    let ghost mut es = Seq::<MsgV>::empty();
    proof {
        assert(body.take(0) =~= Seq::<Seq<char>>::empty());
        assert(heap@.to_multiset() =~= es.to_multiset());
    }
    let mut j: usize = 0;
    while j < k
        invariant
            0 <= j <= k,
            fields@.len() <= usize::MAX,
            fields@.len() == 1 + 5 * k,
            fv == fields.deep_view(),
            body == fv.skip(1),
            body.len() == 5 * k,
            parse_body(body.take(5 * j as int)) == Some(es),
            heap.wf(),
            heap@.to_multiset() == es.to_multiset(),
        decreases k - j,
    {
        let base = 1 + 5 * j;
        let id = fields[base].clone();
        let queue_name = fields[base + 1].clone();
        let msg = fields[base + 2].clone();
        let delay_time = match parse_u64_dec(fields[base + 3].as_str()) {
            Some(t) => t,
            None => {
                proof {
                    assert(body.take(5 * (j + 1) as int).skip(5 * j as int) =~= body.subrange(
                        5 * j as int,
                        5 * j + 5,
                    ));
                    assert(body.subrange(5 * j as int, 5 * j + 5)[3] == fv[base as int + 3]);
                    assert(parse_entry(body.subrange(5 * j as int, 5 * j + 5)) is None);
                    assert(body.take(5 * (j + 1) as int).take(5 * j as int) =~= body.take(
                        5 * j as int,
                    ));
                    assert(parse_body(body.take(5 * (j + 1) as int)) is None);
                    lemma_parse_body_none_extends(body, j + 1);
                }
                return Err(SnapshotError);
            },
        };
        let mode = match Mode::from_str(fields[base + 4].as_str()) {
            Ok(m) => m,
            Err(_) => {
                proof {
                    assert(body.take(5 * (j + 1) as int).skip(5 * j as int) =~= body.subrange(
                        5 * j as int,
                        5 * j + 5,
                    ));
                    assert(body.subrange(5 * j as int, 5 * j + 5)[4] == fv[base as int + 4]);
                    assert(parse_entry(body.subrange(5 * j as int, 5 * j + 5)) is None);
                    assert(body.take(5 * (j + 1) as int).take(5 * j as int) =~= body.take(
                        5 * j as int,
                    ));
                    assert(parse_body(body.take(5 * (j + 1) as int)) is None);
                    lemma_parse_body_none_extends(body, j + 1);
                }
                return Err(SnapshotError);
            },
        };
        let m = Msg { id, queue_name, msg, delay_time, mode };
        proof {
            assert(body.take(5 * (j + 1) as int).skip(5 * j as int) =~= body.subrange(
                5 * j as int,
                5 * j + 5,
            ));
            assert(body.take(5 * (j + 1) as int).take(5 * j as int) =~= body.take(5 * j as int));
            assert(body.subrange(5 * j as int, 5 * j + 5)[0] == fv[base as int]);
            assert(body.subrange(5 * j as int, 5 * j + 5)[1] == fv[base as int + 1]);
            assert(body.subrange(5 * j as int, 5 * j + 5)[2] == fv[base as int + 2]);
            assert(body.subrange(5 * j as int, 5 * j + 5)[3] == fv[base as int + 3]);
            assert(body.subrange(5 * j as int, 5 * j + 5)[4] == fv[base as int + 4]);
            assert(parse_entry(body.subrange(5 * j as int, 5 * j + 5)) == Some(m@)) by {
                assert(parse_entry(body.subrange(5 * j as int, 5 * j + 5))->Some_0 =~= m@);
            }
            assert(parse_body(body.take(5 * (j + 1) as int)) == Some(es.push(m@)));
        }
        heap.push(m);
        proof {
            let es0 = es;
            es = es.push(m@);
            vstd::seq_lib::to_multiset_build(es0, m@);
            assert(es.to_multiset() =~= es0.to_multiset().insert(m@));
            assert(heap@.to_multiset() == es.to_multiset());
        }
        j = j + 1;
    }
    proof {
        assert(body.take(5 * k as int) =~= body);
    }
    Ok(heap)
}

} // verus!
