use vstd::prelude::*;

verus! {

/// The kind of a chart note; every kind but `Tap` is a hold and carries its end time.
#[derive(Debug, Clone)]
pub enum NoteKind {
    Tap,
    ChargeNote { end_time_us: u64 },
    HellChargeNote { end_time_us: u64 },
    BackSpinScratch { end_time_us: u64 },
    HellBackSpinScratch { end_time_us: u64 },
    MultiSpinScratch { end_time_us: u64, reverse_checkpoints_us: Vec<u64> },
    HellMultiSpinScratch { end_time_us: u64, reverse_checkpoints_us: Vec<u64> },
}

pub enum KindV {
    Tap,
    ChargeNote { end_time_us: u64 },
    HellChargeNote { end_time_us: u64 },
    BackSpinScratch { end_time_us: u64 },
    HellBackSpinScratch { end_time_us: u64 },
    MultiSpinScratch { end_time_us: u64, reverse_checkpoints_us: Seq<u64> },
    HellMultiSpinScratch { end_time_us: u64, reverse_checkpoints_us: Seq<u64> },
}

impl KindV {
    pub open spec fn end(self) -> Option<u64> {
        match self {
            KindV::Tap => None,
            KindV::ChargeNote { end_time_us } => Some(end_time_us),
            KindV::HellChargeNote { end_time_us } => Some(end_time_us),
            KindV::BackSpinScratch { end_time_us } => Some(end_time_us),
            KindV::HellBackSpinScratch { end_time_us } => Some(end_time_us),
            KindV::MultiSpinScratch { end_time_us, .. } => Some(end_time_us),
            KindV::HellMultiSpinScratch { end_time_us, .. } => Some(end_time_us),
        }
    }

    pub open spec fn checkpoints(self) -> Option<Seq<u64>> {
        match self {
            KindV::MultiSpinScratch { reverse_checkpoints_us, .. } => Some(reverse_checkpoints_us),
            KindV::HellMultiSpinScratch { reverse_checkpoints_us, .. } => Some(
                reverse_checkpoints_us,
            ),
            _ => None,
        }
    }
}

impl View for NoteKind {
    type V = KindV;

    open spec fn view(&self) -> KindV {
        match self {
            NoteKind::Tap => KindV::Tap,
            NoteKind::ChargeNote { end_time_us } => KindV::ChargeNote { end_time_us: *end_time_us },
            NoteKind::HellChargeNote { end_time_us } => KindV::HellChargeNote {
                end_time_us: *end_time_us,
            },
            NoteKind::BackSpinScratch { end_time_us } => KindV::BackSpinScratch {
                end_time_us: *end_time_us,
            },
            NoteKind::HellBackSpinScratch { end_time_us } => KindV::HellBackSpinScratch {
                end_time_us: *end_time_us,
            },
            NoteKind::MultiSpinScratch { end_time_us, reverse_checkpoints_us } => {
                KindV::MultiSpinScratch {
                    end_time_us: *end_time_us,
                    reverse_checkpoints_us: reverse_checkpoints_us@,
                }
            },
            NoteKind::HellMultiSpinScratch { end_time_us, reverse_checkpoints_us } => {
                KindV::HellMultiSpinScratch {
                    end_time_us: *end_time_us,
                    reverse_checkpoints_us: reverse_checkpoints_us@,
                }
            },
        }
    }
}

impl NoteKind {
    /// The end time of a hold, `None` for a tap.
    pub fn end_time_us(&self) -> (r: Option<u64>)
        ensures
            r == self@.end(),
    {
        match self {
            NoteKind::Tap => None,
            NoteKind::ChargeNote { end_time_us } => Some(*end_time_us),
            NoteKind::HellChargeNote { end_time_us } => Some(*end_time_us),
            NoteKind::BackSpinScratch { end_time_us } => Some(*end_time_us),
            NoteKind::HellBackSpinScratch { end_time_us } => Some(*end_time_us),
            NoteKind::MultiSpinScratch { end_time_us, .. } => Some(*end_time_us),
            NoteKind::HellMultiSpinScratch { end_time_us, .. } => Some(*end_time_us),
        }
    }
}

/// A note on lane `col` at `time_us`.
#[derive(Debug, Clone)]
pub struct Note {
    pub time_us: u64,
    pub col: u8,
    pub kind: NoteKind,
    pub sound_id: Option<String>,
}

pub struct NoteV {
    pub time_us: u64,
    pub col: u8,
    pub kind: KindV,
    pub sound_id: Option<Seq<char>>,
}

impl View for Note {
    type V = NoteV;

    open spec fn view(&self) -> NoteV {
        NoteV {
            time_us: self.time_us,
            col: self.col,
            kind: self.kind@,
            sound_id: match self.sound_id {
                Some(s) => Some(s@),
                None => None,
            },
        }
    }
}

/// Where a note ends: its end time for a hold (never before its start), its time for a tap.
pub open spec fn effective_end(n: NoteV) -> u64 {
    match n.kind.end() {
        Some(e) => if e >= n.time_us {
            e
        } else {
            n.time_us
        },
        None => n.time_us,
    }
}

/// A background-sound trigger.
#[derive(Debug, Clone)]
pub struct BgmEvent {
    pub time_us: u64,
    pub sound_id: String,
}

pub struct BgmV {
    pub time_us: u64,
    pub sound_id: Seq<char>,
}

impl View for BgmEvent {
    type V = BgmV;

    open spec fn view(&self) -> BgmV {
        BgmV { time_us: self.time_us, sound_id: self.sound_id@ }
    }
}

pub open spec fn notes_view(v: Seq<Note>) -> Seq<NoteV> {
    v.map_values(|n: Note| n@)
}

pub open spec fn bgm_view(v: Seq<BgmEvent>) -> Seq<BgmV> {
    v.map_values(|e: BgmEvent| e@)
}

/// Chart metadata.
#[derive(Debug, Clone)]
pub struct Metadata {
    pub title: String,
    pub artist: String,
    pub version: String,
    pub total_duration_us: u64,
    pub tags: Vec<String>,
}

/// The sound manifest: sound identifiers mapped to asset names, keys distinct.
#[derive(Debug, Clone)]
pub struct Resources {
    pub entries: Vec<(String, String)>,
}

pub open spec fn pairs_view(v: Seq<(String, String)>) -> Seq<(Seq<char>, Seq<char>)> {
    v.map_values(|p: (String, String)| (p.0@, p.1@))
}

pub open spec fn keys_distinct(s: Seq<(Seq<char>, Seq<char>)>) -> bool {
    forall|i: int, j: int| 0 <= i < j < s.len() ==> #[trigger] s[i].0 != #[trigger] s[j].0
}

impl View for Resources {
    type V = Seq<(Seq<char>, Seq<char>)>;

    open spec fn view(&self) -> Seq<(Seq<char>, Seq<char>)> {
        pairs_view(self.entries@)
    }
}

pub open spec fn has_key(s: Seq<(Seq<char>, Seq<char>)>, k: Seq<char>) -> bool {
    exists|i: int| 0 <= i < s.len() && #[trigger] s[i].0 == k
}

impl Resources {
    pub open spec fn wf(&self) -> bool {
        keys_distinct(self@)
    }

    pub fn new() -> (r: Self)
        ensures
            r@ == Seq::<(Seq<char>, Seq<char>)>::empty(),
            r.wf(),
    {
        Resources { entries: Vec::new() }
    }

    pub fn len(&self) -> (r: usize)
        ensures
            r == self@.len(),
    {
        self.entries.len()
    }

    pub fn is_empty(&self) -> (r: bool)
        ensures
            r == (self@.len() == 0),
    {
        self.entries.len() == 0
    }

    pub fn contains_key(&self, k: &String) -> (r: bool)
        ensures
            r == has_key(self@, k@),
    {
        let mut i: usize = 0;
        while i < self.entries.len()
            invariant
                i <= self.entries.len(),
                forall|j: int| 0 <= j < i ==> #[trigger] self@[j].0 != k@,
            decreases self.entries.len() - i,
        {
            if self.entries[i].0 == *k {
                assert(self@[i as int].0 == k@);
                return true;
            }
            i = i + 1;
        }
        false
    }

    /// The asset name of `key`, if the manifest has it.
    pub fn get(&self, key: &str) -> (r: Option<String>)
        ensures
            r.is_some() == has_key(self@, key@),
            r.is_some() ==> exists|i: int|
                0 <= i < self@.len() && #[trigger] self@[i].0 == key@ && self@[i].1
                    == r.unwrap()@,
    {
        let k = key.to_owned();
        let mut i: usize = 0;
        while i < self.entries.len()
            invariant
                i <= self.entries.len(),
                k@ == key@,
                forall|j: int| 0 <= j < i ==> #[trigger] self@[j].0 != k@,
            decreases self.entries.len() - i,
        {
            if self.entries[i].0 == k {
                assert(self@[i as int].0 == k@);
                return Some(self.entries[i].1.clone());
            }
            i = i + 1;
        }
        None
    }
}

/// A compiled chart. Visual and speed events are always empty in what this
/// compiler emits, so they are not held here.
#[derive(Debug, Clone)]
pub struct MdfChart {
    pub meta: Metadata,
    pub resources: Resources,
    pub notes: Vec<Note>,
    pub bgm_events: Vec<BgmEvent>,
}

/// A compiled chart as contracts see it.
pub struct ChartV {
    pub title: Seq<char>,
    pub artist: Seq<char>,
    pub version: Seq<char>,
    pub total_duration_us: u64,
    pub tags: Seq<Seq<char>>,
    pub resources: Seq<(Seq<char>, Seq<char>)>,
    pub notes: Seq<NoteV>,
    pub bgm: Seq<BgmV>,
}

impl View for MdfChart {
    type V = ChartV;

    open spec fn view(&self) -> ChartV {
        ChartV {
            title: self.meta.title@,
            artist: self.meta.artist@,
            version: self.meta.version@,
            total_duration_us: self.meta.total_duration_us,
            tags: self.meta.tags@.map_values(|s: String| s@),
            resources: self.resources@,
            notes: notes_view(self.notes@),
            bgm: bgm_view(self.bgm_events@),
        }
    }
}

} // verus!
