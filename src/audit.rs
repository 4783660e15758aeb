//! Audit events that filesystem operations hand to the audit pipeline, and
//! the time windows the pipeline batches them into.
use vstd::prelude::*;

verus! {

/// One mutation or read, as the audit pipeline records it.
pub struct AuditEvent {
    pub creation_time: String,
    pub event_type: String,
    pub file_path: String,
    pub event_key: String,
}

pub open spec fn disassembled() -> Seq<char> {
    seq!['D', 'I', 'S', 'A', 'S', 'S', 'E', 'M', 'B', 'L', 'E', 'D']
}

pub open spec fn reassembled() -> Seq<char> {
    seq!['R', 'E', 'A', 'S', 'S', 'E', 'M', 'B', 'L', 'E', 'D']
}

pub open spec fn directory_read() -> Seq<char> {
    seq!['D', 'I', 'R', 'E', 'C', 'T', 'O', 'R', 'Y', '_', 'R', 'E', 'A', 'D']
}

pub open spec fn deleted() -> Seq<char> {
    seq!['D', 'E', 'L', 'E', 'T', 'E', 'D']
}

pub open spec fn modified() -> Seq<char> {
    seq!['M', 'O', 'D', 'I', 'F', 'I', 'E', 'D']
}

/// The kinds of audit event. `Modified` stands for every change to the
/// namespace or to metadata: a node made, renamed, written or given new
/// attributes.
#[derive(Clone, Copy, Debug, PartialEq, Eq, Structural)]
pub enum EventType {
    Disassembled,
    Reassembled,
    DirectoryRead,
    Deleted,
    Modified,
}

pub open spec fn event_type_name(t: EventType) -> Seq<char> {
    match t {
        EventType::Disassembled => disassembled(),
        EventType::Reassembled => reassembled(),
        EventType::DirectoryRead => directory_read(),
        EventType::Deleted => deleted(),
        EventType::Modified => modified(),
    }
}

/// `new` is `old` with one more event at its end: of kind `t`, on `path`,
/// charged to `key`, made at `stamp`.
pub open spec fn queued(
    old: Seq<AuditEvent>,
    new: Seq<AuditEvent>,
    t: EventType,
    path: Seq<char>,
    key: Seq<char>,
    stamp: Seq<char>,
) -> bool {
    &&& new.len() == old.len() + 1
    &&& new.subrange(0, old.len() as int) == old
    &&& new.last().event_type@ == event_type_name(t)
    &&& new.last().file_path@ == path
    &&& new.last().event_key@ == key
    &&& new.last().creation_time@ == stamp
}

/// The name under which an event of kind `t` is recorded.
pub fn event_type_string(t: EventType) -> (r: String)
    ensures
        r@ == event_type_name(t),
{
    let s = match t {
        EventType::Disassembled => "DISASSEMBLED",
        EventType::Reassembled => "REASSEMBLED",
        EventType::DirectoryRead => "DIRECTORY_READ",
        EventType::Deleted => "DELETED",
        EventType::Modified => "MODIFIED",
    };
    proof {
        reveal_strlit("DISASSEMBLED");
        reveal_strlit("REASSEMBLED");
        reveal_strlit("DIRECTORY_READ");
        reveal_strlit("DELETED");
        reveal_strlit("MODIFIED");
    }
    let r = s.to_owned();
    assert(r@ =~= event_type_name(t));
    r
}

/// An event of kind `t` on `path`, charged to `key`, made at the time that
/// `stamp` writes out.
pub fn make_event(t: EventType, path: &str, key: &str, stamp: &str) -> (r: AuditEvent)
    ensures
        r.event_type@ == event_type_name(t),
        r.file_path@ == path@,
        r.event_key@ == key@,
        r.creation_time@ == stamp@,
{
    AuditEvent {
        creation_time: stamp.to_owned(),
        event_type: event_type_string(t),
        file_path: path.to_owned(),
        event_key: key.to_owned(),
    }
}

/// An event as an external ledger records it.
pub struct Event {
    pub creation_time: String,
    pub event_type: String,
    pub file_path: String,
    pub event_key: String,
}

/// The ledger transaction an event is submitted as.
#[derive(Clone, Copy, Debug, PartialEq, Eq, Structural)]
pub enum LedgerCall {
    Disassembled,
    Reassembled,
}

/// The transaction for an event of type `t`: none for a type the ledger
/// does not know.
pub open spec fn ledger_call_of(t: Seq<char>) -> Option<LedgerCall> {
    if t == "disassembled"@ {
        Some(LedgerCall::Disassembled)
    } else if t == "reassembled"@ {
        Some(LedgerCall::Reassembled)
    } else {
        None
    }
}

impl Event {
    pub fn new(creation_time: &str, event_type: &str, file_path: &str, event_key: &str) -> (r: Event)
        ensures
            r.creation_time@ == creation_time@,
            r.event_type@ == event_type@,
            r.file_path@ == file_path@,
            r.event_key@ == event_key@,
    {
        Event {
            creation_time: creation_time.to_owned(),
            event_type: event_type.to_owned(),
            file_path: file_path.to_owned(),
            event_key: event_key.to_owned(),
        }
    }

    /// The ledger transaction this event is submitted as.
    pub fn ledger_call(&self) -> (r: Option<LedgerCall>)
        ensures
            r == ledger_call_of(self.event_type@),
    {
        if self.event_type == "disassembled".to_owned() {
            Some(LedgerCall::Disassembled)
        } else if self.event_type == "reassembled".to_owned() {
            Some(LedgerCall::Reassembled)
        } else {
            None
        }
    }
}

/// The audit window of length `w` that holds `ts`: its first and last second.
pub open spec fn window_of(ts: u64, w: u64) -> (u64, u64) {
    ((ts - ts % w) as u64, (ts - ts % w + w - 1) as u64)
}

/// First and last second of the window of length `w` that holds `ts`.
pub fn window_bounds(ts: u64, w: u64) -> (r: (u64, u64))
    requires
        w > 0,
        ts - ts % w + w - 1 <= u64::MAX,
    ensures
        r == window_of(ts, w),
        r.0 <= ts <= r.1,
        r.1 - r.0 == w - 1,
        r.0 % w == 0,
{
    proof {
        vstd::arithmetic::div_mod::lemma_mod_bound(ts as int, w as int);
        vstd::arithmetic::div_mod::lemma_mod_decreases(ts as nat, w as nat);
    }
    let start = ts - ts % w;
    proof {
        vstd::arithmetic::div_mod::lemma_fundamental_div_mod(ts as int, w as int);
        vstd::arithmetic::div_mod::lemma_mod_multiples_basic((ts / w) as int, w as int);
        assert(start as int == (ts / w) as int * w as int) by (nonlinear_arith)
            requires
                ts as int == w as int * (ts / w) as int + (ts % w) as int,
                start as int == ts as int - (ts % w) as int,
        ;
    }
    (start, start + (w - 1))
}

/// Whether `ts` lies within `[start, end]`.
pub fn in_window(ts: u64, start: u64, end: u64) -> (r: bool)
    ensures
        r == (start <= ts && ts <= end),
{
    start <= ts && ts <= end
}

} // verus!
