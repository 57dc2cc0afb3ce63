use vstd::prelude::*;

use crate::checkpoints::{checkpoints_result, compute_mss_checkpoints};
use crate::error::{CompileError, ErrInfo, ErrorCode, info};
use crate::parser::{LineV, TrackLine, track_view, track_wf};
use crate::schema::{
    BgmEvent, BgmV, KindV, Note, NoteKind, NoteV, Resources, bgm_view, has_key, notes_view,
};
use crate::tail::{RevSpec, RevV, SoundSpec, SoundV, no_rev, opt_str_view};
use crate::text::{decimal, push_decimal};

verus! {

/// The resource table as contracts see it.
pub type Res = Seq<(Seq<char>, Seq<char>)>;

/// The kind of an open hold.
#[derive(Debug, Clone, Copy, PartialEq, Eq, Structural)]
pub enum HoldKind {
    Charge,
    HellCharge,
    Bss,
    HellBss,
    Mss,
    HellMss,
}

/// What first claimed a `(time_us, lane)` coordinate.
#[derive(Debug, Clone, Copy, PartialEq, Eq, Structural)]
pub enum StartKind {
    Tap,
    HoldStart,
}

/// A hold opened on some lane and not yet closed.
#[derive(Debug)]
pub struct OpenHold {
    pub start_line: usize,
    pub start_time_us: u64,
    pub start_step_index: usize,
    pub sound_id: Option<String>,
    pub kind: HoldKind,
    pub rev: RevSpec,
    pub marker_checkpoints_us: Vec<u64>,
}

pub struct OpenV {
    pub start_line: usize,
    pub start_time_us: u64,
    pub start_step_index: usize,
    pub sound_id: Option<Seq<char>>,
    pub kind: HoldKind,
    pub rev: RevV,
    pub markers: Seq<u64>,
}

impl View for OpenHold {
    type V = OpenV;

    open spec fn view(&self) -> OpenV {
        OpenV {
            start_line: self.start_line,
            start_time_us: self.start_time_us,
            start_step_index: self.start_step_index,
            sound_id: opt_str_view(self.sound_id),
            kind: self.kind,
            rev: self.rev@,
            markers: self.marker_checkpoints_us@,
        }
    }
}

pub open spec fn open_view(o: Option<OpenHold>) -> Option<OpenV> {
    match o {
        Some(h) => Some(h@),
        None => None,
    }
}

/// Everything pass 2 carries from cell to cell.
pub struct Gen {
    pub open: Vec<Option<OpenHold>>,
    pub start_kinds: Vec<(u64, u8, StartKind)>,
    pub notes: Vec<Note>,
    pub bgm_events: Vec<BgmEvent>,
}

pub struct GenV {
    pub open: Seq<Option<OpenV>>,
    pub starts: Seq<(u64, u8, StartKind)>,
    pub notes: Seq<NoteV>,
    pub bgm: Seq<BgmV>,
}

impl View for Gen {
    type V = GenV;

    open spec fn view(&self) -> GenV {
        GenV {
            open: self.open@.map_values(|o: Option<OpenHold>| open_view(o)),
            starts: self.start_kinds@,
            notes: notes_view(self.notes@),
            bgm: bgm_view(self.bgm_events@),
        }
    }
}

impl Gen {
    pub open spec fn wf(&self) -> bool {
        self.open@.len() == 8
    }
}

pub open spec fn initial_gen() -> GenV {
    GenV {
        open: Seq::new(8, |i: int| None::<OpenV>),
        starts: Seq::empty(),
        notes: Seq::empty(),
        bgm: Seq::empty(),
    }
}

// ---------------------------------------------------------------- sounds

/// A sound id may be used only if the manifest is loaded and has it.
pub open spec fn sound_ok(res: Res, id: Seq<char>) -> bool {
    res.len() > 0 && has_key(res, id)
}

/// The message for a sound id that may not be used: it names the id and, when
/// known, the lane.
pub open spec fn sound_msg(res: Res, id: Seq<char>, lane: Option<u8>) -> Seq<char> {
    let head = if res.len() == 0 {
        "sound_id referenced but no manifest loaded (sound_id="@
    } else {
        "sound_id not found in manifest (sound_id="@
    };
    let named = match lane {
        Some(l) => head + id + ", lane="@ + decimal(l as nat),
        None => head + id,
    };
    named + ")"@
}

pub open spec fn sound_err(res: Res, id: Seq<char>, line: nat, lane: Option<u8>) -> ErrInfo {
    ErrInfo { lane, ..info(ErrorCode::E2101, line, sound_msg(res, id, lane)) }
}

pub open spec fn overlap_msg(kind: StartKind, t: u64, lane: u8) -> Seq<char> {
    (if kind == StartKind::Tap {
        "tap overlaps hold start"@
    } else {
        "hold start overlaps tap"@
    }) + " at same (time_us,lane) (time_us="@ + decimal(t as nat) + ", lane="@ + decimal(lane as nat)
        + ")"@
}

pub open spec fn mismatch_msg() -> Seq<char> {
    "hold type mismatch while toggling"@
}

pub open spec fn unclosed_msg(lane: nat, h: OpenV) -> Seq<char> {
    "unclosed toggle (lane="@ + decimal(lane) + ", start_line="@ + decimal(h.start_line as nat)
        + ", start_time_us="@ + decimal(h.start_time_us as nat) + ")"@
}

/// The sound a lane's note takes from the step's sound spec.
pub open spec fn lane_sound(sound: SoundV, col: int) -> Option<Seq<char>> {
    match sound {
        SoundV::NoSound => None,
        SoundV::Single(id) => Some(id),
        SoundV::PerLane(a) => a[col],
    }
}

/// Background events for the lane slots `i..` of a per-lane sound list.
pub open spec fn bgm_lanes(bgm: Seq<BgmV>, t: u64, a: Seq<Option<Seq<char>>>, i: int, res: Res, line: nat) -> Result<Seq<BgmV>, ErrInfo>
    decreases a.len() - i,
{
    if i < 0 || i >= a.len() {
        Ok(bgm)
    } else {
        match a[i] {
            None => bgm_lanes(bgm, t, a, i + 1, res, line),
            Some(id) => if !sound_ok(res, id) {
                Err(sound_err(res, id, line, Some(i as u8)))
            } else {
                bgm_lanes(bgm.push(BgmV { time_us: t, sound_id: id }), t, a, i + 1, res, line)
            },
        }
    }
}

/// Background events that a sound spec emits at time `t`.
pub open spec fn bgm_emit(bgm: Seq<BgmV>, t: u64, sound: SoundV, res: Res, line: nat) -> Result<Seq<BgmV>, ErrInfo> {
    match sound {
        SoundV::NoSound => Ok(bgm),
        SoundV::Single(id) => if !sound_ok(res, id) {
            Err(sound_err(res, id, line, None))
        } else {
            Ok(bgm.push(BgmV { time_us: t, sound_id: id }))
        },
        SoundV::PerLane(a) => bgm_lanes(bgm, t, a, 0, res, line),
    }
}

// ---------------------------------------------------------------- collisions

/// What first claimed `(t, lane)`, looking from entry `i` on.
pub open spec fn lookup_start_from(sk: Seq<(u64, u8, StartKind)>, i: int, t: u64, lane: u8) -> Option<StartKind>
    decreases sk.len() - i,
{
    if i < 0 || i >= sk.len() {
        None
    } else if sk[i].0 == t && sk[i].1 == lane {
        Some(sk[i].2)
    } else {
        lookup_start_from(sk, i + 1, t, lane)
    }
}

/// Claims `(t, lane)` for `kind`; a claim by the other kind fails.
pub open spec fn register(sk: Seq<(u64, u8, StartKind)>, t: u64, lane: u8, kind: StartKind, step: usize, line: nat) -> Result<Seq<(u64, u8, StartKind)>, ErrInfo> {
    match lookup_start_from(sk, 0, t, lane) {
        Some(k) => if k != kind {
            Err(info(ErrorCode::E4004, line, overlap_msg(kind, t, lane)).step(step).time(t).lane(lane))
        } else {
            Ok(sk)
        },
        None => Ok(sk.push((t, lane, kind))),
    }
}

// ---------------------------------------------------------------- holds

pub open spec fn new_hold(line: usize, t: u64, step: usize, sid: Option<Seq<char>>, kind: HoldKind, rev: RevV) -> OpenV {
    OpenV {
        start_line: line,
        start_time_us: t,
        start_step_index: step,
        sound_id: sid,
        kind,
        rev,
        markers: Seq::empty(),
    }
}

/// The effect of `l` / `h` on key lane `col`: open a charge hold, or close it.
pub open spec fn toggle_hold_spec(g: GenV, col: int, t: u64, step: usize, sid: Option<Seq<char>>, kind: HoldKind, line: usize, res: Res) -> Result<GenV, ErrInfo> {
    if col == 0 {
        Err(info(ErrorCode::E4001, line as nat, "CN/HCN not allowed on scratch"@))
    } else {
        match g.open[col] {
            None => if sid is Some && !sound_ok(res, sid.unwrap()) {
                Err(sound_err(res, sid.unwrap(), line as nat, Some(col as u8)))
            } else {
                Ok(GenV { open: g.open.update(col, Some(new_hold(line, t, step, sid, kind, no_rev()))), ..g })
            },
            Some(h) => if h.kind != kind {
                Err(info(ErrorCode::E4101, line as nat, mismatch_msg()))
            } else {
                Ok(
                    GenV {
                        notes: g.notes.push(
                            NoteV {
                                time_us: h.start_time_us,
                                col: col as u8,
                                kind: if kind == HoldKind::Charge {
                                    KindV::ChargeNote { end_time_us: t }
                                } else {
                                    KindV::HellChargeNote { end_time_us: t }
                                },
                                sound_id: h.sound_id,
                            },
                        ),
                        open: g.open.update(col, None),
                        ..g
                    },
                )
            },
        }
    }
}

/// The effect of `b` / `B` on the scratch lane: open a back-spin scratch, or
/// close it and emit the end line's background sounds.
pub open spec fn toggle_scratch_spec(g: GenV, t: u64, step: usize, sound: SoundV, kind: HoldKind, line: usize, res: Res) -> Result<GenV, ErrInfo> {
    let sid = lane_sound(sound, 0);
    match g.open[0] {
        None => if sid is Some && !sound_ok(res, sid.unwrap()) {
            Err(sound_err(res, sid.unwrap(), line as nat, Some(0)))
        } else {
            Ok(GenV { open: g.open.update(0, Some(new_hold(line, t, step, sid, kind, no_rev()))), ..g })
        },
        Some(h) => if h.kind != kind {
            Err(info(ErrorCode::E4101, line as nat, mismatch_msg()))
        } else {
            match bgm_emit(g.bgm, t, sound, res, line as nat) {
                Err(e) => Err(e),
                Ok(b) => Ok(
                    GenV {
                        bgm: b,
                        notes: g.notes.push(
                            NoteV {
                                time_us: h.start_time_us,
                                col: 0,
                                kind: if kind == HoldKind::Bss {
                                    KindV::BackSpinScratch { end_time_us: t }
                                } else {
                                    KindV::HellBackSpinScratch { end_time_us: t }
                                },
                                sound_id: h.sound_id,
                            },
                        ),
                        open: g.open.update(0, None),
                        ..g
                    },
                ),
            }
        },
    }
}

/// The effect of `m` / `M` on the scratch lane: open a multi-spin scratch
/// (keeping the line's rev settings), or close it with its reverse checkpoints.
pub open spec fn toggle_mss_spec(g: GenV, t: u64, step: usize, sound: SoundV, kind: HoldKind, rev: RevV, times: Seq<u64>, line: usize, res: Res) -> Result<GenV, ErrInfo> {
    let sid = lane_sound(sound, 0);
    match g.open[0] {
        None => if sid is Some && !sound_ok(res, sid.unwrap()) {
            Err(sound_err(res, sid.unwrap(), line as nat, Some(0)))
        } else {
            Ok(GenV { open: g.open.update(0, Some(new_hold(line, t, step, sid, kind, rev))), ..g })
        },
        Some(h) => if h.kind != kind {
            Err(info(ErrorCode::E4101, line as nat, mismatch_msg()))
        } else {
            match checkpoints_result(h.start_step_index, step, t, times, h.rev, h.markers, line) {
                Err(e) => Err(e),
                Ok(cps) => match bgm_emit(g.bgm, t, sound, res, line as nat) {
                    Err(e) => Err(e),
                    Ok(b) => Ok(
                        GenV {
                            bgm: b,
                            notes: g.notes.push(
                                NoteV {
                                    time_us: h.start_time_us,
                                    col: 0,
                                    kind: if kind == HoldKind::Mss {
                                        KindV::MultiSpinScratch { end_time_us: t, reverse_checkpoints_us: cps }
                                    } else {
                                        KindV::HellMultiSpinScratch { end_time_us: t, reverse_checkpoints_us: cps }
                                    },
                                    sound_id: h.sound_id,
                                },
                            ),
                            open: g.open.update(0, None),
                            ..g
                        },
                    ),
                },
            }
        },
    }
}

/// The effect of `!`: a marker checkpoint inside an open multi-spin scratch.
pub open spec fn marker_spec(g: GenV, t: u64, step: usize, sound: SoundV, res: Res, line: usize) -> Result<GenV, ErrInfo> {
    let e4003 = info(ErrorCode::E4003, line as nat, "'!' is only valid while MSS/HMSS is active"@)
        .step(step).time(t).lane(0);
    match g.open[0] {
        None => Err(e4003),
        Some(h) => if h.kind == HoldKind::Mss || h.kind == HoldKind::HellMss {
            match bgm_emit(g.bgm, t, sound, res, line as nat) {
                Err(e) => Err(e),
                Ok(b) => Ok(
                    GenV { open: g.open.update(0, Some(OpenV { markers: h.markers.push(t), ..h })), bgm: b, ..g },
                ),
            }
        } else if h.kind == HoldKind::Bss || h.kind == HoldKind::HellBss {
            Err(info(ErrorCode::E4102, line as nat, "'!' is not allowed while BSS/HBSS is active"@).step(step).time(t).lane(0))
        } else {
            Err(e4003)
        },
    }
}

/// Registers a hold start at `(t, lane)` when the lane has no open hold.
pub open spec fn claim_if_opening(g: GenV, lane: int, t: u64, step: usize, line: usize) -> Result<GenV, ErrInfo> {
    if g.open[lane] is None {
        match register(g.starts, t, lane as u8, StartKind::HoldStart, step, line as nat) {
            Ok(sk) => Ok(GenV { starts: sk, ..g }),
            Err(e) => Err(e),
        }
    } else {
        Ok(g)
    }
}

/// The effect of one cell of a step line.
pub open spec fn cell_spec(g: GenV, col: int, ch: char, t: u64, step: usize, line: usize, sound: SoundV, rev: RevV, times: Seq<u64>, res: Res) -> Result<GenV, ErrInfo> {
    if ch == 'N' || ch == 'S' {
        let ls = lane_sound(sound, col);
        if ls is Some && !sound_ok(res, ls.unwrap()) {
            Err(sound_err(res, ls.unwrap(), line as nat, Some(col as u8)))
        } else {
            match register(g.starts, t, col as u8, StartKind::Tap, step, line as nat) {
                Err(e) => Err(e),
                Ok(sk) => Ok(
                    GenV {
                        starts: sk,
                        notes: g.notes.push(NoteV { time_us: t, col: col as u8, kind: KindV::Tap, sound_id: ls }),
                        ..g
                    },
                ),
            }
        }
    } else if ch == 'l' || ch == 'h' {
        match claim_if_opening(g, col, t, step, line) {
            Err(e) => Err(e),
            Ok(g1) => toggle_hold_spec(
                g1,
                col,
                t,
                step,
                lane_sound(sound, col),
                if ch == 'l' {
                    HoldKind::Charge
                } else {
                    HoldKind::HellCharge
                },
                line,
                res,
            ),
        }
    } else if ch == 'b' || ch == 'B' {
        match claim_if_opening(g, 0, t, step, line) {
            Err(e) => Err(e),
            Ok(g1) => toggle_scratch_spec(
                g1,
                t,
                step,
                sound,
                if ch == 'b' {
                    HoldKind::Bss
                } else {
                    HoldKind::HellBss
                },
                line,
                res,
            ),
        }
    } else if ch == 'm' || ch == 'M' {
        match claim_if_opening(g, 0, t, step, line) {
            Err(e) => Err(e),
            Ok(g1) => toggle_mss_spec(
                g1,
                t,
                step,
                sound,
                if ch == 'm' {
                    HoldKind::Mss
                } else {
                    HoldKind::HellMss
                },
                rev,
                times,
                line,
                res,
            ),
        }
    } else if ch == '!' {
        marker_spec(g, t, step, sound, res, line)
    } else {
        Ok(g)
    }
}

/// Cells `col..8` of a step line, in lane order.
pub open spec fn cells_from(g: GenV, cells: Seq<char>, col: int, t: u64, step: usize, line: usize, sound: SoundV, rev: RevV, times: Seq<u64>, res: Res) -> Result<GenV, ErrInfo>
    decreases 8 - col,
{
    if col < 0 || col >= 8 {
        Ok(g)
    } else {
        match cell_spec(g, col, cells[col], t, step, line, sound, rev, times, res) {
            Ok(g2) => cells_from(g2, cells, col + 1, t, step, line, sound, rev, times, res),
            Err(e) => Err(e),
        }
    }
}

pub open spec fn all_dots(cells: Seq<char>) -> bool {
    forall|k: int| 0 <= k < cells.len() ==> #[trigger] cells[k] == '.'
}

/// One step line, the `step`-th: background sounds of an empty step, the rev
/// placement rule, then its cells.
pub open spec fn step_spec(g: GenV, step: usize, line: usize, cells: Seq<char>, sound: SoundV, rev: RevV, times: Seq<u64>, res: Res) -> Result<GenV, ErrInfo> {
    if step >= times.len() {
        Err(info(ErrorCode::E1101, line as nat, "internal step index mismatch"@))
    } else {
        let t = times[step as int];
        let g1 = if all_dots(cells) {
            match bgm_emit(g.bgm, t, sound, res, line as nat) {
                Ok(b) => Ok(GenV { bgm: b, ..g }),
                Err(e) => Err(e),
            }
        } else {
            Ok(g)
        };
        match g1 {
            Err(e) => Err(e),
            Ok(g1) => if !rev.is_empty() && cells[0] != 'm' && cells[0] != 'M' {
                Err(info(ErrorCode::E4201, line as nat, "@rev_every/@rev_at only allowed on MSS/HMSS start line"@).step(step).time(t))
            } else {
                cells_from(g1, cells, 0, t, step, line, sound, rev, times, res)
            },
        }
    }
}

/// Track lines `i..`, with `step` step lines already done.
pub open spec fn gen_from(track: Seq<LineV>, i: int, step: nat, g: GenV, times: Seq<u64>, res: Res) -> Result<GenV, ErrInfo>
    decreases track.len() - i,
{
    if i < 0 || i >= track.len() {
        Ok(g)
    } else {
        match track[i] {
            LineV::Directive { .. } => gen_from(track, i + 1, step, g, times, res),
            LineV::Step { line, cells, sound, rev } => if step > usize::MAX {
                Err(info(ErrorCode::E1101, line as nat, "internal step index mismatch"@))
            } else {
                match step_spec(g, step as usize, line, cells, sound, rev, times, res) {
                    Ok(g2) => gen_from(track, i + 1, step + 1, g2, times, res),
                    Err(e) => Err(e),
                }
            },
        }
    }
}

/// The first lane at or after `i` with an open hold, or 8.
pub open spec fn first_open_from(open: Seq<Option<OpenV>>, i: int) -> int
    decreases 8 - i,
{
    if 0 <= i < 8 && open[i] is None {
        first_open_from(open, i + 1)
    } else {
        i
    }
}

/// Pass 2: the notes and background events of a track, given its step start
/// times and the resource table; a hold left open is an error at its start.
pub open spec fn generate(track: Seq<LineV>, times: Seq<u64>, res: Res) -> Result<(Seq<NoteV>, Seq<BgmV>), ErrInfo> {
    match gen_from(track, 0, 0, initial_gen(), times, res) {
        Err(e) => Err(e),
        Ok(g) => {
            let k = first_open_from(g.open, 0);
            if k < 8 {
                let h = g.open[k].unwrap();
                Err(
                    info(ErrorCode::E4101, h.start_line as nat, unclosed_msg(k as nat, h)).lane(k as u8)
                        .step(h.start_step_index).time(h.start_time_us),
                )
            } else {
                Ok((g.notes, g.bgm))
            }
        },
    }
}

// ---------------------------------------------------------------- exec

/// Whether a step from `before` that returned `r`, leaving the state `after`,
/// did what `s` says; a failure leaves the notes and background events as they were.
pub open spec fn outcome(r: Result<(), CompileError>, before: GenV, after: GenV, s: Result<GenV, ErrInfo>) -> bool {
    match s {
        Ok(v) => r is Ok && after == v,
        Err(i) => r matches Err(e) && e.is(i) && after.notes == before.notes && after.bgm == before.bgm,
    }
}

fn clone_opt(o: &Option<String>) -> (r: Option<String>)
    ensures
        r == *o,
{
    match o {
        Some(s) => Some(s.clone()),
        None => None,
    }
}

fn text(s: &str) -> (r: String)
    ensures
        r@ == s@,
{
    let mut m = String::new();
    m.append(s);
    m
}

/// Checks that `sound_id` may be used: a manifest is loaded and has it.
pub fn validate_sound_id(resources: &Resources, sound_id: &String, line: usize, lane: Option<usize>) -> (r: Result<(), CompileError>)
    requires
        lane matches Some(l) ==> l < 8,
    ensures
        r is Ok <==> sound_ok(resources@, sound_id@),
        r matches Err(e) ==> e.is(
            sound_err(
                resources@,
                sound_id@,
                line as nat,
                match lane {
                    Some(l) => Some(l as u8),
                    None => None,
                },
            ),
        ),
{
    let empty = resources.is_empty();
    if !empty && resources.contains_key(sound_id) {
        return Ok(());
    }
    let mut m = String::new();
    if empty {
        m.append("sound_id referenced but no manifest loaded (sound_id=");
    } else {
        m.append("sound_id not found in manifest (sound_id=");
    }
    m.append(sound_id.as_str());
    match lane {
        Some(l) => {
            m.append(", lane=");
            push_decimal(&mut m, l as u64);
        },
        None => {},
    }
    m.append(")");
    assert(m@ =~= sound_msg(
        resources@,
        sound_id@,
        match lane {
            Some(l) => Some(l as u8),
            None => None,
        },
    ));
    let e = CompileError::new(ErrorCode::E2101, m, line);
    match lane {
        Some(l) => Err(e.with_lane(l as u8)),
        None => Err(e),
    }
}

/// Emits the background events of `sound` at `time_us`.
#[verifier::loop_isolation(false)]
pub fn push_bgm_events_from_sound(out: &mut Vec<BgmEvent>, time_us: u64, sound: &SoundSpec, resources: &Resources, line: usize) -> (r: Result<(), CompileError>)
    requires
        sound.wf(),
    ensures
        match bgm_emit(bgm_view(old(out)@), time_us, sound@, resources@, line as nat) {
            Ok(b) => r is Ok && bgm_view(final(out)@) == b,
            Err(i) => r matches Err(e) && e.is(i) && final(out)@ == old(out)@,
        },
{
    match sound {
        SoundSpec::NoSound => Ok(()),
        SoundSpec::Single(id) => {
            validate_sound_id(resources, id, line, None)?;
            let ghost before = bgm_view(out@);
            out.push(BgmEvent { time_us, sound_id: id.clone() });
            assert(bgm_view(out@) =~= before.push(BgmV { time_us, sound_id: id@ }));
            Ok(())
        },
        SoundSpec::PerLane(lanes) => {
            let ghost a = lanes@.map_values(|o: Option<String>| opt_str_view(o));
            let ghost base = bgm_view(out@);
            let mut tmp: Vec<BgmEvent> = Vec::new();
            let mut i: usize = 0;
            assert(base + bgm_view(tmp@) =~= base);
            while i < lanes.len()
                invariant
                    i <= lanes.len(),
                    lanes@.len() == 8,
                    base == bgm_view(out@),
                    out@ == old(out)@,
                    a == lanes@.map_values(|o: Option<String>| opt_str_view(o)),
                    bgm_lanes(base + bgm_view(tmp@), time_us, a, i as int, resources@, line as nat) == bgm_lanes(
                        base,
                        time_us,
                        a,
                        0,
                        resources@,
                        line as nat,
                    ),
                decreases lanes.len() - i,
            {
                match &lanes[i] {
                    Some(id) => {
                        assert(a[i as int] == Some(id@));
                        validate_sound_id(resources, id, line, Some(i))?;
                        let ghost before = bgm_view(tmp@);
                        tmp.push(BgmEvent { time_us, sound_id: id.clone() });
                        assert(bgm_view(tmp@) =~= before.push(BgmV { time_us, sound_id: id@ }));
                        assert(base + bgm_view(tmp@) =~= (base + before).push(BgmV { time_us, sound_id: id@ }));
                    },
                    None => {
                        assert(a[i as int] is None);
                    },
                }
                i = i + 1;
            }
            let ghost t = bgm_view(tmp@);
            out.append(&mut tmp);
            assert(bgm_view(out@) =~= base + t);
            Ok(())
        },
    }
}

/// The sound of each lane under `sound`.
pub fn lane_sounds(sound: &SoundSpec) -> (r: Vec<Option<String>>)
    requires
        sound.wf(),
    ensures
        r@.len() == 8,
        forall|col: int| 0 <= col < 8 ==> #[trigger] opt_str_view(r@[col]) == lane_sound(sound@, col),
{
    let mut out: Vec<Option<String>> = Vec::new();
    let mut i: usize = 0;
    while i < 8
        invariant
            i <= 8,
            sound.wf(),
            out@.len() == i,
            forall|col: int| 0 <= col < i ==> #[trigger] opt_str_view(out@[col]) == lane_sound(sound@, col),
        decreases 8 - i,
    {
        let v = match sound {
            SoundSpec::NoSound => None,
            SoundSpec::Single(id) => Some(id.clone()),
            SoundSpec::PerLane(lanes) => clone_opt(&lanes[i]),
        };
        out.push(v);
        i = i + 1;
    }
    out
}

fn lookup_start(sk: &Vec<(u64, u8, StartKind)>, t: u64, lane: u8) -> (r: Option<StartKind>)
    ensures
        r == lookup_start_from(sk@, 0, t, lane),
{
    let mut i: usize = 0;
    while i < sk.len()
        invariant
            i <= sk.len(),
            lookup_start_from(sk@, i as int, t, lane) == lookup_start_from(sk@, 0, t, lane),
        decreases sk.len() - i,
    {
        if sk[i].0 == t && sk[i].1 == lane {
            return Some(sk[i].2);
        }
        i = i + 1;
    }
    None
}

fn overlap_error(kind: StartKind, time_us: u64, lane: u8, step_index: usize, line: usize) -> (r: CompileError)
    ensures
        r.is(info(ErrorCode::E4004, line as nat, overlap_msg(kind, time_us, lane)).step(step_index).time(time_us).lane(lane)),
{
    let mut m = String::new();
    if kind == StartKind::Tap {
        m.append("tap overlaps hold start");
    } else {
        m.append("hold start overlaps tap");
    }
    m.append(" at same (time_us,lane) (time_us=");
    push_decimal(&mut m, time_us);
    m.append(", lane=");
    push_decimal(&mut m, lane as u64);
    m.append(")");
    assert(m@ =~= overlap_msg(kind, time_us, lane));
    CompileError::new(ErrorCode::E4004, m, line).with_step_index(step_index).with_time_us(time_us).with_lane(lane)
}

/// Records a tap at `(time_us, lane)`; a hold start there is a collision.
pub fn register_tap_start(start_kinds: &mut Vec<(u64, u8, StartKind)>, time_us: u64, lane: u8, step_index: usize, line: usize) -> (r: Result<(), CompileError>)
    ensures
        match register(old(start_kinds)@, time_us, lane, StartKind::Tap, step_index, line as nat) {
            Ok(sk) => r is Ok && final(start_kinds)@ == sk,
            Err(i) => r matches Err(e) && e.is(i) && final(start_kinds)@ == old(start_kinds)@,
        },
{
    match lookup_start(start_kinds, time_us, lane) {
        Some(k) => {
            if k == StartKind::HoldStart {
                return Err(overlap_error(StartKind::Tap, time_us, lane, step_index, line));
            }
            Ok(())
        },
        None => {
            start_kinds.push((time_us, lane, StartKind::Tap));
            Ok(())
        },
    }
}

/// Records a hold start at `(time_us, lane)`; a tap there is a collision.
pub fn register_hold_start(start_kinds: &mut Vec<(u64, u8, StartKind)>, time_us: u64, lane: u8, step_index: usize, line: usize) -> (r: Result<(), CompileError>)
    ensures
        match register(old(start_kinds)@, time_us, lane, StartKind::HoldStart, step_index, line as nat) {
            Ok(sk) => r is Ok && final(start_kinds)@ == sk,
            Err(i) => r matches Err(e) && e.is(i) && final(start_kinds)@ == old(start_kinds)@,
        },
{
    match lookup_start(start_kinds, time_us, lane) {
        Some(k) => {
            if k == StartKind::Tap {
                return Err(overlap_error(StartKind::HoldStart, time_us, lane, step_index, line));
            }
            Ok(())
        },
        None => {
            start_kinds.push((time_us, lane, StartKind::HoldStart));
            Ok(())
        },
    }
}

fn mismatch(line: usize) -> (r: CompileError)
    ensures
        r.is(info(ErrorCode::E4101, line as nat, mismatch_msg())),
{
    CompileError::new(ErrorCode::E4101, text("hold type mismatch while toggling"), line)
}

/// Takes the hold out of `open[col]`, leaving the lane idle.
fn take_open(g: &mut Gen, col: usize) -> (r: Option<OpenHold>)
    requires
        old(g).wf(),
        col < 8,
    ensures
        final(g).wf(),
        open_view(r) == old(g)@.open[col as int],
        final(g)@ == (GenV { open: old(g)@.open.update(col as int, None), ..old(g)@ }),
{
    let h = g.open.remove(col);
    g.open.insert(col, None);
    assert(g@.open =~= old(g)@.open.update(col as int, None));
    h
}

/// Puts `h` into the idle lane `col`.
fn put_open(g: &mut Gen, col: usize, h: OpenHold)
    requires
        old(g).wf(),
        col < 8,
    ensures
        final(g).wf(),
        final(g)@ == (GenV { open: old(g)@.open.update(col as int, Some(h@)), ..old(g)@ }),
{
    g.open.remove(col);
    g.open.insert(col, Some(h));
    assert(g@.open =~= old(g)@.open.update(col as int, Some(h@)));
}

fn push_note(g: &mut Gen, n: Note)
    ensures
        final(g).open == old(g).open,
        final(g)@ == (GenV { notes: old(g)@.notes.push(n@), ..old(g)@ }),
{
    g.notes.push(n);
    assert(g@.notes =~= old(g)@.notes.push(n@));
}

/// `l` / `h` on key lane `col`.
pub fn toggle_hold(g: &mut Gen, resources: &Resources, col: usize, time_us: u64, step_index: usize, sound_id: Option<String>, kind: HoldKind, line: usize) -> (r: Result<(), CompileError>)
    requires
        old(g).wf(),
        col < 8,
        kind == HoldKind::Charge || kind == HoldKind::HellCharge,
    ensures
        final(g).wf(),
        outcome(r, old(g)@, final(g)@, toggle_hold_spec(old(g)@, col as int, time_us, step_index, opt_str_view(sound_id), kind, line, resources@)),
{
    if col == 0 {
        return Err(CompileError::new(ErrorCode::E4001, text("CN/HCN not allowed on scratch"), line));
    }
    if g.open[col].is_none() {
        match &sound_id {
            Some(id) => {
                validate_sound_id(resources, id, line, Some(col))?;
            },
            None => {},
        }
        let h = OpenHold {
            start_line: line,
            start_time_us: time_us,
            start_step_index: step_index,
            sound_id,
            kind,
            rev: RevSpec::default(),
            marker_checkpoints_us: Vec::new(),
        };
        assert(h@ == new_hold(line, time_us, step_index, opt_str_view(sound_id), kind, no_rev()));
        put_open(g, col, h);
        return Ok(());
    }
    let existing = take_open(g, col);
    match existing {
        Some(h) => {
            if h.kind != kind {
                return Err(mismatch(line));
            }
            let nk = if h.kind == HoldKind::Charge {
                NoteKind::ChargeNote { end_time_us: time_us }
            } else {
                NoteKind::HellChargeNote { end_time_us: time_us }
            };
            push_note(g, Note { time_us: h.start_time_us, col: col as u8, kind: nk, sound_id: h.sound_id });
            Ok(())
        },
        None => Ok(()),
    }
}

/// `b` / `B` on the scratch lane; the end line's sound spec becomes background events.
pub fn toggle_scratch_hold_end_se(g: &mut Gen, resources: &Resources, time_us: u64, step_index: usize, end_sound: &SoundSpec, start_sound_id: Option<String>, kind: HoldKind, line: usize) -> (r: Result<(), CompileError>)
    requires
        old(g).wf(),
        end_sound.wf(),
        opt_str_view(start_sound_id) == lane_sound(end_sound@, 0),
        kind == HoldKind::Bss || kind == HoldKind::HellBss,
    ensures
        final(g).wf(),
        outcome(r, old(g)@, final(g)@, toggle_scratch_spec(old(g)@, time_us, step_index, end_sound@, kind, line, resources@)),
{
    if g.open[0].is_none() {
        match &start_sound_id {
            Some(id) => {
                validate_sound_id(resources, id, line, Some(0))?;
            },
            None => {},
        }
        let h = OpenHold {
            start_line: line,
            start_time_us: time_us,
            start_step_index: step_index,
            sound_id: start_sound_id,
            kind,
            rev: RevSpec::default(),
            marker_checkpoints_us: Vec::new(),
        };
        put_open(g, 0, h);
        return Ok(());
    }
    let existing = take_open(g, 0);
    match existing {
        Some(h) => {
            if h.kind != kind {
                return Err(mismatch(line));
            }
            push_bgm_events_from_sound(&mut g.bgm_events, time_us, end_sound, resources, line)?;
            let nk = if h.kind == HoldKind::Bss {
                NoteKind::BackSpinScratch { end_time_us: time_us }
            } else {
                NoteKind::HellBackSpinScratch { end_time_us: time_us }
            };
            push_note(g, Note { time_us: h.start_time_us, col: 0, kind: nk, sound_id: h.sound_id });
            Ok(())
        },
        None => Ok(()),
    }
}

/// `m` / `M` on the scratch lane; closing computes the reverse checkpoints.
pub fn toggle_mss(g: &mut Gen, resources: &Resources, time_us: u64, step_index: usize, end_sound: &SoundSpec, start_sound_id: Option<String>, kind: HoldKind, rev: &RevSpec, step_times: &Vec<u64>, line: usize) -> (r: Result<(), CompileError>)
    requires
        old(g).wf(),
        end_sound.wf(),
        opt_str_view(start_sound_id) == lane_sound(end_sound@, 0),
        kind == HoldKind::Mss || kind == HoldKind::HellMss,
    ensures
        final(g).wf(),
        outcome(r, old(g)@, final(g)@, toggle_mss_spec(old(g)@, time_us, step_index, end_sound@, kind, rev@, step_times@, line, resources@)),
{
    if g.open[0].is_none() {
        match &start_sound_id {
            Some(id) => {
                validate_sound_id(resources, id, line, Some(0))?;
            },
            None => {},
        }
        let h = OpenHold {
            start_line: line,
            start_time_us: time_us,
            start_step_index: step_index,
            sound_id: start_sound_id,
            kind,
            rev: RevSpec { every: rev.every, at: rev.at.clone() },
            marker_checkpoints_us: Vec::new(),
        };
        put_open(g, 0, h);
        return Ok(());
    }
    let existing = take_open(g, 0);
    match existing {
        Some(h) => {
            if h.kind != kind {
                return Err(mismatch(line));
            }
            let cps = compute_mss_checkpoints(h.start_step_index, step_index, time_us, step_times, &h.rev, &h.marker_checkpoints_us, line)?;
            push_bgm_events_from_sound(&mut g.bgm_events, time_us, end_sound, resources, line)?;
            let nk = if h.kind == HoldKind::Mss {
                NoteKind::MultiSpinScratch { end_time_us: time_us, reverse_checkpoints_us: cps }
            } else {
                NoteKind::HellMultiSpinScratch { end_time_us: time_us, reverse_checkpoints_us: cps }
            };
            push_note(g, Note { time_us: h.start_time_us, col: 0, kind: nk, sound_id: h.sound_id });
            Ok(())
        },
        None => Ok(()),
    }
}

/// `!`: a marker checkpoint of the open multi-spin scratch.
pub fn handle_marker_checkpoint(g: &mut Gen, time_us: u64, step_index: usize, sound: &SoundSpec, resources: &Resources, line: usize) -> (r: Result<(), CompileError>)
    requires
        old(g).wf(),
        sound.wf(),
    ensures
        final(g).wf(),
        outcome(r, old(g)@, final(g)@, marker_spec(old(g)@, time_us, step_index, sound@, resources@, line)),
{
    let e4003 = CompileError::new(ErrorCode::E4003, text("'!' is only valid while MSS/HMSS is active"), line)
        .with_step_index(step_index).with_time_us(time_us).with_lane(0);
    let existing = take_open(g, 0);
    match existing {
        None => Err(e4003),
        Some(h) => {
            if h.kind == HoldKind::Mss || h.kind == HoldKind::HellMss {
                let mut h = h;
                let ghost hv = h@;
                h.marker_checkpoints_us.push(time_us);
                assert(h@ == (OpenV { markers: hv.markers.push(time_us), ..hv }));
                put_open(g, 0, h);
                push_bgm_events_from_sound(&mut g.bgm_events, time_us, sound, resources, line)?;
                assert(g@.open =~= old(g)@.open.update(0, Some(OpenV { markers: hv.markers.push(time_us), ..hv })));
                Ok(())
            } else if h.kind == HoldKind::Bss || h.kind == HoldKind::HellBss {
                Err(
                    CompileError::new(ErrorCode::E4102, text("'!' is not allowed while BSS/HBSS is active"), line)
                        .with_step_index(step_index).with_time_us(time_us).with_lane(0),
                )
            } else {
                Err(e4003)
            }
        },
    }
}

/// One cell of a step line.
pub fn process_cell(g: &mut Gen, col: usize, ch: char, time_us: u64, step_index: usize, line: usize, sound: &SoundSpec, rev: &RevSpec, ls: &Vec<Option<String>>, step_times: &Vec<u64>, resources: &Resources) -> (r: Result<(), CompileError>)
    requires
        old(g).wf(),
        col < 8,
        sound.wf(),
        ls@.len() == 8,
        forall|c: int| 0 <= c < 8 ==> #[trigger] opt_str_view(ls@[c]) == lane_sound(sound@, c),
    ensures
        final(g).wf(),
        outcome(r, old(g)@, final(g)@, cell_spec(old(g)@, col as int, ch, time_us, step_index, line, sound@, rev@, step_times@, resources@)),
{
    assert(opt_str_view(ls@[col as int]) == lane_sound(sound@, col as int));
    assert(opt_str_view(ls@[0]) == lane_sound(sound@, 0));
    if ch == 'N' || ch == 'S' {
        match &ls[col] {
            Some(id) => {
                validate_sound_id(resources, id, line, Some(col))?;
            },
            None => {},
        }
        register_tap_start(&mut g.start_kinds, time_us, col as u8, step_index, line)?;
        push_note(g, Note { time_us, col: col as u8, kind: NoteKind::Tap, sound_id: clone_opt(&ls[col]) });
        Ok(())
    } else if ch == 'l' || ch == 'h' {
        if g.open[col].is_none() {
            register_hold_start(&mut g.start_kinds, time_us, col as u8, step_index, line)?;
        }
        let kind = if ch == 'l' {
            HoldKind::Charge
        } else {
            HoldKind::HellCharge
        };
        toggle_hold(g, resources, col, time_us, step_index, clone_opt(&ls[col]), kind, line)
    } else if ch == 'b' || ch == 'B' {
        if g.open[0].is_none() {
            register_hold_start(&mut g.start_kinds, time_us, 0, step_index, line)?;
        }
        let kind = if ch == 'b' {
            HoldKind::Bss
        } else {
            HoldKind::HellBss
        };
        toggle_scratch_hold_end_se(g, resources, time_us, step_index, sound, clone_opt(&ls[0]), kind, line)
    } else if ch == 'm' || ch == 'M' {
        if g.open[0].is_none() {
            register_hold_start(&mut g.start_kinds, time_us, 0, step_index, line)?;
        }
        let kind = if ch == 'm' {
            HoldKind::Mss
        } else {
            HoldKind::HellMss
        };
        toggle_mss(g, resources, time_us, step_index, sound, clone_opt(&ls[0]), kind, rev, step_times, line)
    } else if ch == '!' {
        handle_marker_checkpoint(g, time_us, step_index, sound, resources, line)
    } else {
        Ok(())
    }
}

fn unclosed_error(h: &OpenHold, col: usize) -> (r: CompileError)
    requires
        col < 8,
    ensures
        r.is(info(ErrorCode::E4101, h.start_line as nat, unclosed_msg(col as nat, h@)).lane(col as u8)
            .step(h.start_step_index).time(h.start_time_us)),
{
    let mut m = String::new();
    m.append("unclosed toggle (lane=");
    push_decimal(&mut m, col as u64);
    m.append(", start_line=");
    push_decimal(&mut m, h.start_line as u64);
    m.append(", start_time_us=");
    push_decimal(&mut m, h.start_time_us);
    m.append(")");
    assert(m@ =~= unclosed_msg(col as nat, h@));
    CompileError::new(ErrorCode::E4101, m, h.start_line).with_lane(col as u8).with_step_index(
        h.start_step_index,
    ).with_time_us(h.start_time_us)
}

/// Pass 2: walks the track with its step start times and emits notes and
/// background events, enforcing the hold, collision and sound rules.
#[verifier::loop_isolation(false)]
pub fn pass2_generate(track: &Vec<TrackLine>, step_times: &Vec<u64>, resources: &Resources) -> (r: Result<(Vec<Note>, Vec<BgmEvent>), CompileError>)
    requires
        track_wf(track@),
    ensures
        match (r, generate(track_view(track@), step_times@, resources@)) {
            (Ok(v), Ok(s)) => notes_view(v.0@) == s.0 && bgm_view(v.1@) == s.1,
            (Err(e), Err(i)) => e.is(i),
            _ => false,
        },
{
    let ghost tv = track_view(track@);
    let ghost times = step_times@;
    let ghost res = resources@;
    let mut open: Vec<Option<OpenHold>> = Vec::new();
    let mut k: usize = 0;
    while k < 8
        invariant
            k <= 8,
            open@.len() == k,
            forall|j: int| 0 <= j < k ==> open@[j] is None,
        decreases 8 - k,
    {
        open.push(None);
        k = k + 1;
    }
    let mut g = Gen { open, start_kinds: Vec::new(), notes: Vec::new(), bgm_events: Vec::new() };
    assert(g@.open =~= initial_gen().open);
    assert(g@.notes =~= initial_gen().notes);
    assert(g@.bgm =~= initial_gen().bgm);
    assert(g@ == initial_gen());
    let mut step_index: usize = 0;
    let mut i: usize = 0;
    while i < track.len()
        invariant
            i <= track.len(),
            g.wf(),
            step_index <= step_times.len(),
            gen_from(tv, i as int, step_index as nat, g@, times, res) == gen_from(tv, 0, 0, initial_gen(), times, res),
        decreases track.len() - i,
    {
        assert(track@[i as int].wf());
        match &track[i] {
            TrackLine::Directive { .. } => {},
            TrackLine::Step { line, cells, sound, rev } => {
                if step_index >= step_times.len() {
                    return Err(CompileError::new(ErrorCode::E1101, text("internal step index mismatch"), *line));
                }
                let time_us = step_times[step_index];
                let mut has_any_note = false;
                let mut c: usize = 0;
                while c < 8
                    invariant
                        c <= 8,
                        !has_any_note ==> forall|j: int| 0 <= j < c ==> cells@[j] == '.',
                        has_any_note ==> !all_dots(cells@),
                    decreases 8 - c,
                {
                    if cells[c] != '.' {
                        has_any_note = true;
                    }
                    c = c + 1;
                }
                if !has_any_note {
                    push_bgm_events_from_sound(&mut g.bgm_events, time_us, sound, resources, *line)?;
                }
                let ghost g1 = g@;
                if (rev.every.is_some() || rev.at.len() > 0) && cells[0] != 'm' && cells[0] != 'M' {
                    return Err(
                        CompileError::new(
                            ErrorCode::E4201,
                            text("@rev_every/@rev_at only allowed on MSS/HMSS start line"),
                            *line,
                        ).with_step_index(step_index).with_time_us(time_us),
                    );
                }
                let ls = lane_sounds(sound);
                let mut col: usize = 0;
                while col < 8
                    invariant
                        col <= 8,
                        g.wf(),
                        ls@.len() == 8,
                        cells_from(g@, cells@, col as int, time_us, step_index, *line, sound@, rev@, times, res)
                            == cells_from(g1, cells@, 0, time_us, step_index, *line, sound@, rev@, times, res),
                    decreases 8 - col,
                {
                    process_cell(&mut g, col, cells[col], time_us, step_index, *line, sound, rev, &ls, step_times, resources)?;
                    col = col + 1;
                }
                step_index = step_index + 1;
            },
        }
        i = i + 1;
    }
    let mut col: usize = 0;
    while col < 8
        invariant
            col <= 8,
            g.wf(),
            first_open_from(g@.open, col as int) == first_open_from(g@.open, 0),
        decreases 8 - col,
    {
        match &g.open[col] {
            Some(h) => {
                assert(g@.open[col as int] == Some(h@));
                return Err(unclosed_error(h, col));
            },
            None => {},
        }
        col = col + 1;
    }
    Ok((g.notes, g.bgm_events))
}

} // verus!
