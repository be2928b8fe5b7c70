//! The unified, backend-agnostic task record and its component types.
//!
//! Timestamps carry both their calendar fields (for absolute date
//! rendering) and their position on the time line in seconds (for
//! durations); the caller that obtains a record from a store fills both.
//! Real-valued user attributes are carried as their rendered text plus
//! their whole-second part, which is all the formatting logic reads.

use vstd::prelude::*;

verus! {

/// The status of a task record.
#[derive(Clone, Copy, Debug, PartialEq, Eq, Structural)]
pub enum TaskStatus {
    Pending,
    Completed,
    Deleted,
    Waiting,
    Recurring,
}

impl TaskStatus {
    /// The capitalized status name shown in the `status` column.
    pub open spec fn name_seq(self) -> Seq<char> {
        match self {
            TaskStatus::Pending => seq!['P', 'e', 'n', 'd', 'i', 'n', 'g'],
            TaskStatus::Completed => seq!['C', 'o', 'm', 'p', 'l', 'e', 't', 'e', 'd'],
            TaskStatus::Deleted => seq!['D', 'e', 'l', 'e', 't', 'e', 'd'],
            TaskStatus::Waiting => seq!['W', 'a', 'i', 't', 'i', 'n', 'g'],
            TaskStatus::Recurring => seq!['R', 'e', 'c', 'u', 'r', 'r', 'i', 'n', 'g'],
        }
    }

    pub fn name(&self) -> (r: String)
        ensures
            r@ == self.name_seq(),
    {
        let s = match self {
            TaskStatus::Pending => "Pending",
            TaskStatus::Completed => "Completed",
            TaskStatus::Deleted => "Deleted",
            TaskStatus::Waiting => "Waiting",
            TaskStatus::Recurring => "Recurring",
        };
        proof {
            reveal_strlit("Pending");
            reveal_strlit("Completed");
            reveal_strlit("Deleted");
            reveal_strlit("Waiting");
            reveal_strlit("Recurring");
        }
        s.to_owned()
    }
}

/// A point in time, as both calendar fields (local wall clock) and
/// seconds relative to the epoch.
#[derive(Clone, Copy, Debug)]
pub struct Timestamp {
    pub year: u64,
    pub month: u64,
    pub day: u64,
    pub hour: u64,
    pub minute: u64,
    pub second: u64,
    /// Seconds since the epoch; the scale durations are computed on.
    pub epoch_seconds: i64,
}

impl Timestamp {
    /// Calendar fields lie in their usual ranges and the epoch offset
    /// is far from the ends of the representable line.
    pub open spec fn wf(self) -> bool {
        &&& self.year <= 9999
        &&& 1 <= self.month <= 12
        &&& 1 <= self.day <= 31
        &&& self.hour <= 23
        &&& self.minute <= 59
        &&& self.second <= 59
        &&& -4611686018427387904 < self.epoch_seconds < 4611686018427387904
    }

    /// Runtime test of [`Self::wf`], for callers that obtain
    /// timestamps from outside and must check them before formatting.
    pub fn is_wf(&self) -> (r: bool)
        ensures
            r == self.wf(),
    {
        self.year <= 9999 && 1 <= self.month && self.month <= 12 && 1 <= self.day
            && self.day <= 31 && self.hour <= 23 && self.minute <= 59 && self.second <= 59
            && -4611686018427387904i64 < self.epoch_seconds
            && self.epoch_seconds < 4611686018427387904i64
    }
}

/// A user-defined attribute value: a string, an integer, or a real
/// number carried as its rendered text plus its whole part.
#[derive(Clone, Debug)]
pub enum UdaValue {
    Str(String),
    Int(u64),
    Real { text: String, whole: i64 },
}

impl UdaValue {
    /// Numeric values stay within the range the duration renderer takes.
    pub open spec fn wf(self) -> bool {
        match self {
            UdaValue::Str(_) => true,
            UdaValue::Int(u) => u <= i64::MAX,
            UdaValue::Real { text, whole } => whole > i64::MIN,
        }
    }
}

/// A task record in the unified representation shared by both stores.
#[derive(Clone, Debug)]
pub struct TaskRecord {
    /// Durable identifier.
    pub uuid: String,
    /// Ephemeral small integer id; meaningful only while pending.
    pub id: Option<u64>,
    pub description: String,
    pub status: TaskStatus,
    pub project: Option<String>,
    pub tags: Option<Vec<String>>,
    pub priority: Option<String>,
    pub recur: Option<String>,
    pub entry: Timestamp,
    pub start: Option<Timestamp>,
    pub end: Option<Timestamp>,
    pub due: Option<Timestamp>,
    pub until: Option<Timestamp>,
    pub wait: Option<Timestamp>,
    pub scheduled: Option<Timestamp>,
    /// Urgency in hundredths, so that two decimal places render exactly.
    pub urgency: Option<i64>,
    /// Durable identifiers of the records this one depends on.
    pub depends: Option<Vec<String>>,
    /// How many annotations the record carries, when it carries any.
    pub annotation_count: Option<u64>,
    /// Open-ended attribute map, looked up by attribute name.
    pub uda: Vec<(String, UdaValue)>,
}

impl TaskRecord {
    /// Every timestamp the record holds is well formed.
    pub open spec fn wf(self) -> bool {
        &&& self.entry.wf()
        &&& (self.start matches Some(t) ==> t.wf())
        &&& (self.end matches Some(t) ==> t.wf())
        &&& (self.due matches Some(t) ==> t.wf())
        &&& (self.until matches Some(t) ==> t.wf())
        &&& (self.wait matches Some(t) ==> t.wf())
        &&& (self.scheduled matches Some(t) ==> t.wf())
        &&& (self.urgency matches Some(u) ==> i64::MIN < u)
        &&& (forall|i: int| 0 <= i < self.uda@.len() ==> (#[trigger] self.uda@[i].1).wf())
    }

    /// Runtime test of [`Self::wf`], for callers that fill records
    /// from outside data and must check them before formatting.
    pub fn wf_checked(&self) -> (r: bool)
        ensures
            r == self.wf(),
    {
        if !self.entry.is_wf() {
            return false;
        }
        if let Some(t) = &self.start {
            if !t.is_wf() {
                return false;
            }
        }
        if let Some(t) = &self.end {
            if !t.is_wf() {
                return false;
            }
        }
        if let Some(t) = &self.due {
            if !t.is_wf() {
                return false;
            }
        }
        if let Some(t) = &self.until {
            if !t.is_wf() {
                return false;
            }
        }
        if let Some(t) = &self.wait {
            if !t.is_wf() {
                return false;
            }
        }
        if let Some(t) = &self.scheduled {
            if !t.is_wf() {
                return false;
            }
        }
        match &self.urgency {
            Some(u) => {
                if !(i64::MIN < *u) {
                    return false;
                }
            },
            None => {},
        }
        let mut i: usize = 0;
        let n = self.uda.len();
        while i < n
            invariant
                i <= n,
                n == self.uda@.len(),
                forall|j: int| 0 <= j < i ==> (#[trigger] self.uda@[j].1).wf(),
            decreases n - i,
        {
            let ok = match &self.uda[i].1 {
                UdaValue::Str(_) => true,
                UdaValue::Int(u) => *u <= (i64::MAX as u64),
                UdaValue::Real { text: _, whole } => *whole > i64::MIN,
            };
            if !ok {
                return false;
            }
            i += 1;
        }
        true
    }

    /// A fresh record with the given identity and description, pending,
    /// entered at `entry`, and carrying nothing else.
    pub fn new(uuid: String, description: String, entry: Timestamp) -> (r: TaskRecord)
        ensures
            r.uuid == uuid,
            r.description == description,
            r.status == TaskStatus::Pending,
            r.entry == entry,
            r.id is None,
            r.project is None,
            r.tags is None,
            r.priority is None,
            r.recur is None,
            r.start is None,
            r.end is None,
            r.due is None,
            r.until is None,
            r.wait is None,
            r.scheduled is None,
            r.urgency is None,
            r.depends is None,
            r.annotation_count is None,
            r.uda@ =~= Seq::<(String, UdaValue)>::empty(),
    {
        TaskRecord {
            uuid,
            id: None,
            description,
            status: TaskStatus::Pending,
            project: None,
            tags: None,
            priority: None,
            recur: None,
            entry,
            start: None,
            end: None,
            due: None,
            until: None,
            wait: None,
            scheduled: None,
            urgency: None,
            depends: None,
            annotation_count: None,
            uda: Vec::new(),
        }
    }
}

} // verus!
