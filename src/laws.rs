use vstd::prelude::*;

use crate::compile::{
    compile_text, ins_bgm, ins_note, max_bgm_time, max_note_end, sort_bgm,
    sort_notes, };
use crate::checkpoints::{checkpoints_spec, lists_members, strictly_sorted, candidates};
use crate::generate::{
    GenV, OpenV, Res, bgm_emit, bgm_lanes, cell_spec, cells_from, claim_if_opening, gen_from,
    generate, lane_sound, marker_spec, step_spec, toggle_hold_spec, toggle_mss_spec,
    toggle_scratch_spec, HoldKind, initial_gen,
};
use crate::manifest::ManifestV;
use crate::parser::{
    LineV, ParseState, cell_check, first_bad_cell, initial_state, line_text, parse_lines_from,
    parse_text, step_text,
};
use crate::schema::{BgmV, KindV, NoteV, effective_end, has_key};
use crate::tail::split_on;
use crate::time_map::{TimeState, time_from, time_map};

verus! {

// ---------------------------------------------------------------- ordering

pub open spec fn notes_in_order(s: Seq<NoteV>) -> bool {
    forall|i: int, j: int| 0 <= i < j < s.len() ==> s[i].time_us <= s[j].time_us
}

pub open spec fn bgm_in_order(s: Seq<BgmV>) -> bool {
    forall|i: int, j: int| 0 <= i < j < s.len() ==> s[i].time_us <= s[j].time_us
}

proof fn lemma_ins_note(s: Seq<NoteV>, x: NoteV)
    requires
        notes_in_order(s),
    ensures
        notes_in_order(ins_note(s, x)),
        ins_note(s, x).len() == s.len() + 1,
        forall|k: int| 0 <= k < ins_note(s, x).len() ==> #[trigger] ins_note(s, x)[k] == x || s.contains(ins_note(s, x)[k]),
    decreases s.len(),
{
    if s.len() == 0 || s.last().time_us <= x.time_us {
        let r = s.push(x);
        assert forall|k: int| 0 <= k < r.len() implies #[trigger] r[k] == x || s.contains(r[k]) by {
            if k < s.len() {
                assert(r[k] == s[k]);
            }
        }
    } else {
        let p = s.drop_last();
        assert(notes_in_order(p));
        lemma_ins_note(p, x);
        let q = ins_note(p, x);
        let r = q.push(s.last());
        assert forall|k: int| 0 <= k < r.len() implies #[trigger] r[k] == x || s.contains(r[k]) by {
            if k < q.len() {
                if q[k] != x {
                    let m = choose|m: int| 0 <= m < p.len() && p[m] == q[k];
                    assert(s[m] == q[k]);
                }
            } else {
                assert(s[s.len() - 1] == r[k]);
            }
        }
        assert forall|i: int, j: int| 0 <= i < j < r.len() implies r[i].time_us <= r[j].time_us by {
            if j == r.len() - 1 {
                if q[i] == x {
                } else {
                    let m = choose|m: int| 0 <= m < p.len() && p[m] == q[i];
                    assert(s[m] == q[i]);
                }
            }
        }
    }
}

proof fn lemma_sort_notes(s: Seq<NoteV>)
    ensures
        notes_in_order(sort_notes(s)),
        sort_notes(s).len() == s.len(),
        forall|k: int| 0 <= k < sort_notes(s).len() ==> s.contains(#[trigger] sort_notes(s)[k]),
    decreases s.len(),
{
    if s.len() > 0 {
        let p = s.drop_last();
        lemma_sort_notes(p);
        lemma_ins_note(sort_notes(p), s.last());
        let r = sort_notes(s);
        assert forall|k: int| 0 <= k < r.len() implies s.contains(#[trigger] r[k]) by {
            if r[k] == s.last() {
                assert(s[s.len() - 1] == r[k]);
            } else {
                let m = choose|m: int| 0 <= m < sort_notes(p).len() && sort_notes(p)[m] == r[k];
                let n = choose|n: int| 0 <= n < p.len() && p[n] == sort_notes(p)[m];
                assert(s[n] == r[k]);
            }
        }
    }
}

proof fn lemma_ins_bgm(s: Seq<BgmV>, x: BgmV)
    requires
        bgm_in_order(s),
    ensures
        bgm_in_order(ins_bgm(s, x)),
        ins_bgm(s, x).len() == s.len() + 1,
        forall|k: int| 0 <= k < ins_bgm(s, x).len() ==> #[trigger] ins_bgm(s, x)[k] == x || s.contains(ins_bgm(s, x)[k]),
    decreases s.len(),
{
    if s.len() == 0 || s.last().time_us <= x.time_us {
        let r = s.push(x);
        assert forall|k: int| 0 <= k < r.len() implies #[trigger] r[k] == x || s.contains(r[k]) by {
            if k < s.len() {
                assert(r[k] == s[k]);
            }
        }
    } else {
        let p = s.drop_last();
        assert(bgm_in_order(p));
        lemma_ins_bgm(p, x);
        let q = ins_bgm(p, x);
        let r = q.push(s.last());
        assert forall|k: int| 0 <= k < r.len() implies #[trigger] r[k] == x || s.contains(r[k]) by {
            if k < q.len() {
                if q[k] != x {
                    let m = choose|m: int| 0 <= m < p.len() && p[m] == q[k];
                    assert(s[m] == q[k]);
                }
            } else {
                assert(s[s.len() - 1] == r[k]);
            }
        }
        assert forall|i: int, j: int| 0 <= i < j < r.len() implies r[i].time_us <= r[j].time_us by {
            if j == r.len() - 1 {
                if q[i] == x {
                } else {
                    let m = choose|m: int| 0 <= m < p.len() && p[m] == q[i];
                    assert(s[m] == q[i]);
                }
            }
        }
    }
}

proof fn lemma_sort_bgm(s: Seq<BgmV>)
    ensures
        bgm_in_order(sort_bgm(s)),
        sort_bgm(s).len() == s.len(),
        forall|k: int| 0 <= k < sort_bgm(s).len() ==> s.contains(#[trigger] sort_bgm(s)[k]),
    decreases s.len(),
{
    if s.len() > 0 {
        let p = s.drop_last();
        lemma_sort_bgm(p);
        lemma_ins_bgm(sort_bgm(p), s.last());
        let r = sort_bgm(s);
        assert forall|k: int| 0 <= k < r.len() implies s.contains(#[trigger] r[k]) by {
            if r[k] == s.last() {
                assert(s[s.len() - 1] == r[k]);
            } else {
                let m = choose|m: int| 0 <= m < sort_bgm(p).len() && sort_bgm(p)[m] == r[k];
                let n = choose|n: int| 0 <= n < p.len() && p[n] == sort_bgm(p)[m];
                assert(s[n] == r[k]);
            }
        }
    }
}

/// In every compiled chart, each note starts no earlier than the one before
/// it, and so does each background event.
pub proof fn law_events_in_time_order(src: Seq<char>, mf: ManifestV)
    requires
        compile_text(src, mf) is Ok,
    ensures
        ({
            let c = compile_text(src, mf)->Ok_0;
            &&& forall|i: int| 0 <= i < c.notes.len() - 1 ==> #[trigger] c.notes[i].time_us <= c.notes[i + 1].time_us
            &&& forall|i: int| 0 <= i < c.bgm.len() - 1 ==> #[trigger] c.bgm[i].time_us <= c.bgm[i + 1].time_us
        }),
{
    let p = crate::parser::parse_text(src)->Ok_0;
    let res = crate::manifest::resources_spec(p.meta, p.meta_line, mf)->Ok_0;
    let times = crate::time_map::time_map(p.track)->Ok_0;
    let g = crate::generate::generate(p.track, times, res)->Ok_0;
    lemma_sort_notes(g.0);
    lemma_sort_bgm(g.1);
}

// ---------------------------------------------------------------- duration

proof fn lemma_max_note_end(s: Seq<NoteV>)
    ensures
        forall|k: int| 0 <= k < s.len() ==> effective_end(#[trigger] s[k]) <= max_note_end(s),
        max_note_end(s) == 0 || exists|k: int| 0 <= k < s.len() && effective_end(#[trigger] s[k]) == max_note_end(s),
    decreases s.len(),
{
    if s.len() > 0 {
        let p = s.drop_last();
        lemma_max_note_end(p);
        assert forall|k: int| 0 <= k < s.len() implies effective_end(#[trigger] s[k]) <= max_note_end(s) by {
            if k < p.len() {
                assert(s[k] == p[k]);
            }
        }
        if max_note_end(s) != 0 {
            if max_note_end(s) == effective_end(s.last()) {
                assert(effective_end(s[s.len() - 1]) == max_note_end(s));
            } else {
                let k = choose|k: int| 0 <= k < p.len() && effective_end(#[trigger] p[k]) == max_note_end(p);
                assert(s[k] == p[k]);
            }
        }
    }
}

proof fn lemma_max_bgm_time(s: Seq<BgmV>)
    ensures
        forall|k: int| 0 <= k < s.len() ==> (#[trigger] s[k]).time_us <= max_bgm_time(s),
        max_bgm_time(s) == 0 || exists|k: int| 0 <= k < s.len() && (#[trigger] s[k]).time_us == max_bgm_time(s),
    decreases s.len(),
{
    if s.len() > 0 {
        let p = s.drop_last();
        lemma_max_bgm_time(p);
        assert forall|k: int| 0 <= k < s.len() implies (#[trigger] s[k]).time_us <= max_bgm_time(s) by {
            if k < p.len() {
                assert(s[k] == p[k]);
            }
        }
        if max_bgm_time(s) != 0 {
            if max_bgm_time(s) == s.last().time_us {
                assert(s[s.len() - 1].time_us == max_bgm_time(s));
            } else {
                let k = choose|k: int| 0 <= k < p.len() && (#[trigger] p[k]).time_us == max_bgm_time(p);
                assert(s[k] == p[k]);
            }
        }
    }
}

/// In every compiled chart, `total_duration_us` is the latest effective end
/// (end time of a hold, time of a tap) over all notes and background events,
/// and 0 when there are none.
pub proof fn law_total_duration_is_latest_end(src: Seq<char>, mf: ManifestV)
    requires
        compile_text(src, mf) is Ok,
    ensures
        ({
            let c = compile_text(src, mf)->Ok_0;
            &&& forall|k: int| 0 <= k < c.notes.len() ==> effective_end(#[trigger] c.notes[k]) <= c.total_duration_us
            &&& forall|k: int| 0 <= k < c.bgm.len() ==> (#[trigger] c.bgm[k]).time_us <= c.total_duration_us
            &&& c.total_duration_us == 0
                || (exists|k: int| 0 <= k < c.notes.len() && effective_end(#[trigger] c.notes[k]) == c.total_duration_us)
                || (exists|k: int| 0 <= k < c.bgm.len() && (#[trigger] c.bgm[k]).time_us == c.total_duration_us)
        }),
{
    let c = compile_text(src, mf)->Ok_0;
    lemma_max_note_end(c.notes);
    lemma_max_bgm_time(c.bgm);
}

// ---------------------------------------------------------------- time map

pub open spec fn strictly_increasing(s: Seq<u64>) -> bool {
    forall|i: int, j: int| 0 <= i < j < s.len() ==> s[i] < s[j]
}

proof fn lemma_time_from(track: Seq<LineV>, i: int, st: TimeState)
    requires
        0 <= i,
        strictly_increasing(st.starts),
        forall|k: int| 0 <= k < st.starts.len() ==> #[trigger] st.starts[k] < st.cursor,
        time_from(track, i, st) is Ok,
    ensures
        strictly_increasing(time_from(track, i, st)->Ok_0.starts),
    decreases track.len() - i,
{
    if i < track.len() {
        let s2 = crate::time_map::time_step(st, track[i])->Ok_0;
        if track[i] is Step {
            assert forall|a: int, b: int| 0 <= a < b < s2.starts.len() implies s2.starts[a] < s2.starts[b] by {
                if b == s2.starts.len() - 1 {
                    assert(st.starts[a] < st.cursor);
                }
            }
            assert forall|k: int| 0 <= k < s2.starts.len() implies #[trigger] s2.starts[k] < s2.cursor by {
                if k < st.starts.len() {
                    assert(st.starts[k] < st.cursor);
                }
            }
        }
        lemma_time_from(track, i + 1, s2);
    }
}

proof fn lemma_time_map_increasing(track: Seq<LineV>)
    requires
        time_map(track) is Ok,
    ensures
        strictly_increasing(time_map(track)->Ok_0),
{
    lemma_time_from(track, 0, TimeState { bpm: None, div: None, cursor: 0, starts: Seq::empty() });
}

// ---------------------------------------------------------------- parsed cells

pub open spec fn cells_valid(cells: Seq<char>) -> bool {
    cells.len() == 8 && forall|c: int| 0 <= c < 8 ==> cell_check(#[trigger] cells[c], c) is None
}

pub open spec fn track_cells_valid(track: Seq<LineV>) -> bool {
    forall|i: int| 0 <= i < track.len() && (#[trigger] track[i]) is Step ==> cells_valid(track[i]->cells)
}

proof fn lemma_first_bad_cell(cells: Seq<char>, i: int)
    requires
        0 <= i <= 8,
        cells.len() == 8,
        first_bad_cell(cells, i) >= 8,
    ensures
        forall|c: int| i <= c < 8 ==> cell_check(#[trigger] cells[c], c) is None,
    decreases 8 - i,
{
    if i < 8 {
        lemma_first_bad_cell(cells, i + 1);
    }
}

proof fn lemma_parse_lines_valid(lines: Seq<Seq<char>>, i: int, st: ParseState)
    requires
        0 <= i,
        track_cells_valid(st.track),
        parse_lines_from(lines, i, st) is Ok,
    ensures
        track_cells_valid(parse_lines_from(lines, i, st)->Ok_0.track),
    decreases lines.len() - i,
{
    if i < lines.len() {
        let s2 = line_text(st, lines[i], (i + 1) as nat)->Ok_0;
        let t = crate::text::trim(crate::text::before_char(lines[i], '#'));
        if st.in_track && t.len() != 0 && t[0] != '@' {
            assert(step_text(t, (i + 1) as nat) is Ok);
            let l = step_text(t, (i + 1) as nat)->Ok_0;
            assert(t.len() >= 8);
            assert(first_bad_cell(t.subrange(0, 8), 0) >= 8);
            lemma_first_bad_cell(t.subrange(0, 8), 0);
            assert(s2.track == st.track.push(l));
            assert forall|k: int| 0 <= k < s2.track.len() && (#[trigger] s2.track[k]) is Step implies cells_valid(s2.track[k]->cells) by {
                if k < st.track.len() {
                    assert(s2.track[k] == st.track[k]);
                }
            }
        } else {
            assert forall|k: int| 0 <= k < s2.track.len() && (#[trigger] s2.track[k]) is Step implies cells_valid(s2.track[k]->cells) by {
                if k < st.track.len() {
                    assert(s2.track[k] == st.track[k]);
                }
            }
        }
        lemma_parse_lines_valid(lines, i + 1, s2);
    }
}

proof fn lemma_parse_valid(src: Seq<char>)
    requires
        parse_text(src) is Ok,
    ensures
        track_cells_valid(parse_text(src)->Ok_0.track),
{
    lemma_parse_lines_valid(split_on(src, '\n'), 0, initial_state());
}

// ---------------------------------------------------------------- checkpoints

pub open spec fn insert_ascending(s: Seq<u64>, x: u64) -> Seq<u64>
    decreases s.len(),
{
    if s.len() == 0 {
        seq![x]
    } else if x < s[0] {
        seq![x] + s
    } else if x == s[0] {
        s
    } else {
        seq![s[0]] + insert_ascending(s.drop_first(), x)
    }
}

proof fn lemma_insert_ascending(s: Seq<u64>, x: u64)
    requires
        strictly_sorted(s),
    ensures
        strictly_sorted(insert_ascending(s, x)),
        forall|t: u64| #[trigger] insert_ascending(s, x).contains(t) <==> (s.contains(t) || t == x),
        insert_ascending(s, x).len() > 0 && insert_ascending(s, x)[0] == (if s.len() == 0 || x < s[0] { x } else { s[0] }),
    decreases s.len(),
{
    let r = insert_ascending(s, x);
    if s.len() == 0 {
        assert(r[0] == x);
        assert forall|t: u64| r.contains(t) <==> (s.contains(t) || t == x) by {
            if r.contains(t) {
                let k = choose|k: int| 0 <= k < r.len() && r[k] == t;
            }
        }
    } else if x < s[0] {
        assert forall|i: int, j: int| 0 <= i < j < r.len() implies r[i] < r[j] by {
            if i == 0 {
                assert(r[j] == s[j - 1]);
                if j - 1 > 0 {
                    assert(s[0] < s[j - 1]);
                }
            } else {
                assert(r[i] == s[i - 1]);
                assert(r[j] == s[j - 1]);
            }
        }
        assert forall|t: u64| r.contains(t) <==> (s.contains(t) || t == x) by {
            if r.contains(t) {
                let k = choose|k: int| 0 <= k < r.len() && r[k] == t;
                if k > 0 {
                    assert(s[k - 1] == t);
                }
            }
            if s.contains(t) {
                let k = choose|k: int| 0 <= k < s.len() && s[k] == t;
                assert(r[k + 1] == t);
            }
            if t == x {
                assert(r[0] == x);
            }
        }
    } else if x == s[0] {
        assert forall|t: u64| r.contains(t) <==> (s.contains(t) || t == x) by {
            if t == x {
                assert(s[0] == x);
            }
        }
    } else {
        let d = s.drop_first();
        assert(strictly_sorted(d));
        lemma_insert_ascending(d, x);
        let q = insert_ascending(d, x);
        assert(r == seq![s[0]] + q);
        assert forall|i: int, j: int| 0 <= i < j < r.len() implies r[i] < r[j] by {
            if i == 0 {
                assert(r[j] == q[j - 1]);
                assert(q.contains(q[j - 1]));
                if q[j - 1] != x {
                    assert(d.contains(q[j - 1]));
                    let m = choose|m: int| 0 <= m < d.len() && d[m] == q[j - 1];
                    assert(s[m + 1] == d[m]);
                }
            } else {
                assert(r[i] == q[i - 1]);
                assert(r[j] == q[j - 1]);
            }
        }
        assert forall|t: u64| r.contains(t) <==> (s.contains(t) || t == x) by {
            if r.contains(t) {
                let k = choose|k: int| 0 <= k < r.len() && r[k] == t;
                if k == 0 {
                    assert(s[0] == t);
                } else {
                    assert(q[k - 1] == t);
                    assert(q.contains(t));
                    if t != x {
                        assert(d.contains(t));
                        let m = choose|m: int| 0 <= m < d.len() && d[m] == t;
                        assert(s[m + 1] == t);
                    }
                }
            }
            if s.contains(t) {
                let k = choose|k: int| 0 <= k < s.len() && s[k] == t;
                if k == 0 {
                    assert(r[0] == t);
                } else {
                    assert(d[k - 1] == t);
                    assert(d.contains(t));
                    assert(insert_ascending(d, x).contains(t));
                    assert(q.contains(t));
                    let m = choose|m: int| 0 <= m < q.len() && q[m] == t;
                    assert(r[m + 1] == t);
                }
            }
            if t == x {
                assert(insert_ascending(d, x).contains(x));
                assert(q.contains(x));
                let m = choose|m: int| 0 <= m < q.len() && q[m] == x;
                assert(r[m + 1] == x);
            }
        }
    }
}

proof fn lemma_members_exist(c: Seq<u64>, excl: u64)
    ensures
        exists|s: Seq<u64>| lists_members(s, c, excl),
    decreases c.len(),
{
    if c.len() == 0 {
        assert(lists_members(Seq::<u64>::empty(), c, excl));
    } else {
        let p = c.drop_last();
        lemma_members_exist(p, excl);
        let s0 = choose|s: Seq<u64>| lists_members(s, p, excl);
        let x = c.last();
        assert forall|t: u64| c.contains(t) <==> (p.contains(t) || t == x) by {
            if c.contains(t) {
                let k = choose|k: int| 0 <= k < c.len() && c[k] == t;
                if k < p.len() {
                    assert(p[k] == t);
                }
            }
            if p.contains(t) {
                let k = choose|k: int| 0 <= k < p.len() && p[k] == t;
                assert(c[k] == t);
            }
            if t == x {
                assert(c[c.len() - 1] == x);
            }
        }
        if x == excl {
            assert(lists_members(s0, c, excl));
        } else {
            lemma_insert_ascending(s0, x);
            let s1 = insert_ascending(s0, x);
            assert forall|t: u64| s1.contains(t) <==> (c.contains(t) && t != excl) by {
                assert(s1.contains(t) <==> (s0.contains(t) || t == x));
                assert(s0.contains(t) <==> (p.contains(t) && t != excl));
            }
            assert(lists_members(s1, c, excl));
        }
    }
}

/// Reverse checkpoints are ascending, repeat-free, and never the end time.
proof fn lemma_checkpoints(start: int, end: int, end_time: u64, times: Seq<u64>, rev: crate::tail::RevV, markers: Seq<u64>)
    ensures
        strictly_sorted(checkpoints_spec(start, end, end_time, times, rev, markers)),
        !checkpoints_spec(start, end, end_time, times, rev, markers).contains(end_time),
{
    let c = candidates(start, end, times, rev, markers);
    lemma_members_exist(c, end_time);
}

// ---------------------------------------------------------------- pass 2

/// An open hold started at a known step, no later than `step` (and before it
/// on lanes from `col` on, not yet visited in this step), with a known sound.
pub open spec fn hold_inv(h: OpenV, lane: int, step: int, col: int, times: Seq<u64>, res: Res) -> bool {
    &&& h.start_step_index < times.len()
    &&& h.start_time_us == times[h.start_step_index as int]
    &&& h.start_step_index <= step
    &&& (lane >= col ==> h.start_step_index < step)
    &&& (h.sound_id is Some ==> has_key(res, h.sound_id->Some_0))
}

/// A note whose sound is in the manifest, whose hold ends after it starts, and
/// whose reverse checkpoints are ascending, repeat-free and not its end.
pub open spec fn note_good(n: NoteV, res: Res) -> bool {
    &&& (n.sound_id is Some ==> has_key(res, n.sound_id->Some_0))
    &&& (n.kind.end() is Some ==> n.kind.end()->Some_0 > n.time_us)
    &&& (n.kind.checkpoints() is Some ==> strictly_sorted(n.kind.checkpoints()->Some_0)
        && !n.kind.checkpoints()->Some_0.contains(n.kind.end()->Some_0))
}

pub open spec fn gen_inv(g: GenV, step: int, col: int, times: Seq<u64>, res: Res) -> bool {
    &&& g.open.len() == 8
    &&& forall|l: int| 0 <= l < 8 && (#[trigger] g.open[l]) is Some ==> hold_inv(g.open[l]->Some_0, l, step, col, times, res)
    &&& forall|k: int| 0 <= k < g.notes.len() ==> note_good(#[trigger] g.notes[k], res)
    &&& forall|k: int| 0 <= k < g.bgm.len() ==> has_key(res, (#[trigger] g.bgm[k]).sound_id)
}

proof fn lemma_bgm_lanes(bgm: Seq<BgmV>, t: u64, a: Seq<Option<Seq<char>>>, i: int, res: Res, line: nat)
    requires
        bgm_lanes(bgm, t, a, i, res, line) is Ok,
        forall|k: int| 0 <= k < bgm.len() ==> has_key(res, (#[trigger] bgm[k]).sound_id),
    ensures
        ({
            let b = bgm_lanes(bgm, t, a, i, res, line)->Ok_0;
            forall|k: int| 0 <= k < b.len() ==> has_key(res, (#[trigger] b[k]).sound_id)
        }),
    decreases a.len() - i,
{
    if 0 <= i < a.len() {
        match a[i] {
            None => lemma_bgm_lanes(bgm, t, a, i + 1, res, line),
            Some(id) => {
                let b2 = bgm.push(BgmV { time_us: t, sound_id: id });
                assert forall|k: int| 0 <= k < b2.len() implies has_key(res, (#[trigger] b2[k]).sound_id) by {
                    if k < bgm.len() {
                        assert(b2[k] == bgm[k]);
                    }
                }
                lemma_bgm_lanes(b2, t, a, i + 1, res, line);
            },
        }
    }
}

proof fn lemma_bgm_emit(bgm: Seq<BgmV>, t: u64, sound: crate::tail::SoundV, res: Res, line: nat)
    requires
        bgm_emit(bgm, t, sound, res, line) is Ok,
        forall|k: int| 0 <= k < bgm.len() ==> has_key(res, (#[trigger] bgm[k]).sound_id),
    ensures
        ({
            let b = bgm_emit(bgm, t, sound, res, line)->Ok_0;
            forall|k: int| 0 <= k < b.len() ==> has_key(res, (#[trigger] b[k]).sound_id)
        }),
{
    match sound {
        crate::tail::SoundV::NoSound => {},
        crate::tail::SoundV::Single(id) => {
            let b2 = bgm.push(BgmV { time_us: t, sound_id: id });
            assert forall|k: int| 0 <= k < b2.len() implies has_key(res, (#[trigger] b2[k]).sound_id) by {
                if k < bgm.len() {
                    assert(b2[k] == bgm[k]);
                }
            }
        },
        crate::tail::SoundV::PerLane(a) => lemma_bgm_lanes(bgm, t, a, 0, res, line),
    }
}

proof fn lemma_push_note(g: GenV, n: NoteV, res: Res)
    requires
        forall|k: int| 0 <= k < g.notes.len() ==> note_good(#[trigger] g.notes[k], res),
        note_good(n, res),
    ensures
        forall|k: int| 0 <= k < g.notes.push(n).len() ==> note_good(#[trigger] g.notes.push(n)[k], res),
{
    assert forall|k: int| 0 <= k < g.notes.push(n).len() implies note_good(#[trigger] g.notes.push(n)[k], res) by {
        if k < g.notes.len() {
            assert(g.notes.push(n)[k] == g.notes[k]);
        }
    }
}

#[verifier::rlimit(50)]
proof fn lemma_cell(g: GenV, col: int, ch: char, t: u64, step: usize, line: usize, sound: crate::tail::SoundV, rev: crate::tail::RevV, times: Seq<u64>, res: Res)
    requires
        gen_inv(g, step as int, col, times, res),
        0 <= col < 8,
        cell_check(ch, col) is None,
        step < times.len(),
        t == times[step as int],
        strictly_increasing(times),
        cell_spec(g, col, ch, t, step, line, sound, rev, times, res) is Ok,
    ensures
        gen_inv(cell_spec(g, col, ch, t, step, line, sound, rev, times, res)->Ok_0, step as int, col + 1, times, res),
{
    let r = cell_spec(g, col, ch, t, step, line, sound, rev, times, res)->Ok_0;
    assert forall|l: int| 0 <= l < 8 && (#[trigger] g.open[l]) is Some implies hold_inv(g.open[l]->Some_0, l, step as int, col + 1, times, res) by {}
    if ch == 'N' || ch == 'S' {
        let ls = lane_sound(sound, col);
        let n = NoteV { time_us: t, col: col as u8, kind: KindV::Tap, sound_id: ls };
        lemma_push_note(g, n, res);
    } else if ch == 'l' || ch == 'h' {
        let g1 = claim_if_opening(g, col, t, step, line)->Ok_0;
        assert(g1.open == g.open && g1.notes == g.notes && g1.bgm == g.bgm);
        let kind = if ch == 'l' { HoldKind::Charge } else { HoldKind::HellCharge };
        let sid = lane_sound(sound, col);
        assert(r == toggle_hold_spec(g1, col, t, step, sid, kind, line, res)->Ok_0);
        match g1.open[col] {
            None => {
                assert(r.open == g1.open.update(col, Some(crate::generate::new_hold(line, t, step, sid, kind, crate::tail::no_rev()))));
                assert forall|l: int| 0 <= l < 8 && (#[trigger] r.open[l]) is Some implies hold_inv(r.open[l]->Some_0, l, step as int, col + 1, times, res) by {
                    if l != col {
                        assert(r.open[l] == g.open[l]);
                    }
                }
            },
            Some(h) => {
                assert(hold_inv(h, col, step as int, col, times, res));
                let n = r.notes.last();
                assert(r.notes == g.notes.push(n));
                lemma_push_note(g, n, res);
                assert forall|l: int| 0 <= l < 8 && (#[trigger] r.open[l]) is Some implies hold_inv(r.open[l]->Some_0, l, step as int, col + 1, times, res) by {
                    assert(r.open[l] == g.open[l]);
                }
            },
        }
    } else if ch == 'b' || ch == 'B' {
        assert(col == 0);
        let g1 = claim_if_opening(g, 0, t, step, line)->Ok_0;
        assert(g1.open == g.open && g1.notes == g.notes && g1.bgm == g.bgm);
        let kind = if ch == 'b' { HoldKind::Bss } else { HoldKind::HellBss };
        assert(r == toggle_scratch_spec(g1, t, step, sound, kind, line, res)->Ok_0);
        match g1.open[0] {
            None => {
                assert forall|l: int| 0 <= l < 8 && (#[trigger] r.open[l]) is Some implies hold_inv(r.open[l]->Some_0, l, step as int, col + 1, times, res) by {
                    if l != 0 {
                        assert(r.open[l] == g.open[l]);
                    }
                }
            },
            Some(h) => {
                assert(hold_inv(h, 0, step as int, 0, times, res));
                lemma_bgm_emit(g1.bgm, t, sound, res, line as nat);
                let n = r.notes.last();
                assert(r.notes == g.notes.push(n));
                lemma_push_note(g, n, res);
                assert forall|l: int| 0 <= l < 8 && (#[trigger] r.open[l]) is Some implies hold_inv(r.open[l]->Some_0, l, step as int, col + 1, times, res) by {
                    assert(r.open[l] == g.open[l]);
                }
            },
        }
    } else if ch == 'm' || ch == 'M' {
        assert(col == 0);
        let g1 = claim_if_opening(g, 0, t, step, line)->Ok_0;
        assert(g1.open == g.open && g1.notes == g.notes && g1.bgm == g.bgm);
        let kind = if ch == 'm' { HoldKind::Mss } else { HoldKind::HellMss };
        assert(r == toggle_mss_spec(g1, t, step, sound, kind, rev, times, line, res)->Ok_0);
        match g1.open[0] {
            None => {
                assert forall|l: int| 0 <= l < 8 && (#[trigger] r.open[l]) is Some implies hold_inv(r.open[l]->Some_0, l, step as int, col + 1, times, res) by {
                    if l != 0 {
                        assert(r.open[l] == g.open[l]);
                    }
                }
            },
            Some(h) => {
                assert(hold_inv(h, 0, step as int, 0, times, res));
                lemma_bgm_emit(g1.bgm, t, sound, res, line as nat);
                lemma_checkpoints(h.start_step_index as int, step as int, t, times, h.rev, h.markers);
                let n = r.notes.last();
                assert(r.notes == g.notes.push(n));
                lemma_push_note(g, n, res);
                assert forall|l: int| 0 <= l < 8 && (#[trigger] r.open[l]) is Some implies hold_inv(r.open[l]->Some_0, l, step as int, col + 1, times, res) by {
                    assert(r.open[l] == g.open[l]);
                }
            },
        }
    } else if ch == '!' {
        assert(col == 0);
        assert(r == marker_spec(g, t, step, sound, res, line)->Ok_0);
        let h = g.open[0]->Some_0;
        lemma_bgm_emit(g.bgm, t, sound, res, line as nat);
        assert forall|l: int| 0 <= l < 8 && (#[trigger] r.open[l]) is Some implies hold_inv(r.open[l]->Some_0, l, step as int, col + 1, times, res) by {
            if l != 0 {
                assert(r.open[l] == g.open[l]);
            } else {
                assert(g.open[0] is Some);
            }
        }
    } else {
    }
}

proof fn lemma_cells_from(g: GenV, cells: Seq<char>, col: int, t: u64, step: usize, line: usize, sound: crate::tail::SoundV, rev: crate::tail::RevV, times: Seq<u64>, res: Res)
    requires
        gen_inv(g, step as int, col, times, res),
        0 <= col <= 8,
        cells_valid(cells),
        step < times.len(),
        t == times[step as int],
        strictly_increasing(times),
        cells_from(g, cells, col, t, step, line, sound, rev, times, res) is Ok,
    ensures
        gen_inv(cells_from(g, cells, col, t, step, line, sound, rev, times, res)->Ok_0, step as int, 8, times, res),
    decreases 8 - col,
{
    if col < 8 {
        assert(cell_check(cells[col], col) is None);
        lemma_cell(g, col, cells[col], t, step, line, sound, rev, times, res);
        let g2 = cell_spec(g, col, cells[col], t, step, line, sound, rev, times, res)->Ok_0;
        lemma_cells_from(g2, cells, col + 1, t, step, line, sound, rev, times, res);
    }
}

proof fn lemma_step(g: GenV, step: usize, line: usize, cells: Seq<char>, sound: crate::tail::SoundV, rev: crate::tail::RevV, times: Seq<u64>, res: Res)
    requires
        gen_inv(g, step as int, 0, times, res),
        cells_valid(cells),
        strictly_increasing(times),
        step_spec(g, step, line, cells, sound, rev, times, res) is Ok,
    ensures
        gen_inv(step_spec(g, step, line, cells, sound, rev, times, res)->Ok_0, step + 1, 0, times, res),
{
    let t = times[step as int];
    let g1 = if crate::generate::all_dots(cells) {
        lemma_bgm_emit(g.bgm, t, sound, res, line as nat);
        GenV { bgm: bgm_emit(g.bgm, t, sound, res, line as nat)->Ok_0, ..g }
    } else {
        g
    };
    assert(gen_inv(g1, step as int, 0, times, res));
    lemma_cells_from(g1, cells, 0, t, step, line, sound, rev, times, res);
    let r = step_spec(g, step, line, cells, sound, rev, times, res)->Ok_0;
    assert(r == cells_from(g1, cells, 0, t, step, line, sound, rev, times, res)->Ok_0);
    assert forall|l: int| 0 <= l < 8 && (#[trigger] r.open[l]) is Some implies hold_inv(r.open[l]->Some_0, l, step + 1, 0, times, res) by {
        assert(hold_inv(r.open[l]->Some_0, l, step as int, 8, times, res));
    }
}

proof fn lemma_gen_from(track: Seq<LineV>, i: int, step: nat, g: GenV, times: Seq<u64>, res: Res)
    requires
        0 <= i,
        track_cells_valid(track),
        strictly_increasing(times),
        gen_inv(g, step as int, 0, times, res),
        gen_from(track, i, step, g, times, res) is Ok,
    ensures
        ({
            let r = gen_from(track, i, step, g, times, res)->Ok_0;
            &&& forall|k: int| 0 <= k < r.notes.len() ==> note_good(#[trigger] r.notes[k], res)
            &&& forall|k: int| 0 <= k < r.bgm.len() ==> has_key(res, (#[trigger] r.bgm[k]).sound_id)
        }),
    decreases track.len() - i,
{
    if i < track.len() {
        match track[i] {
            LineV::Directive { .. } => lemma_gen_from(track, i + 1, step, g, times, res),
            LineV::Step { line, cells, sound, rev } => {
                assert(cells_valid(track[i]->cells));
                lemma_step(g, step as usize, line, cells, sound, rev, times, res);
                let g2 = step_spec(g, step as usize, line, cells, sound, rev, times, res)->Ok_0;
                lemma_gen_from(track, i + 1, step + 1, g2, times, res);
            },
        }
    }
}

proof fn lemma_generate(track: Seq<LineV>, times: Seq<u64>, res: Res)
    requires
        track_cells_valid(track),
        strictly_increasing(times),
        generate(track, times, res) is Ok,
    ensures
        ({
            let r = generate(track, times, res)->Ok_0;
            &&& forall|k: int| 0 <= k < r.0.len() ==> note_good(#[trigger] r.0[k], res)
            &&& forall|k: int| 0 <= k < r.1.len() ==> has_key(res, (#[trigger] r.1[k]).sound_id)
        }),
{
    let g0 = initial_gen();
    assert(gen_inv(g0, 0, 0, times, res));
    lemma_gen_from(track, 0, 0, g0, times, res);
}

proof fn lemma_compiled_notes(src: Seq<char>, mf: ManifestV)
    requires
        compile_text(src, mf) is Ok,
    ensures
        ({
            let c = compile_text(src, mf)->Ok_0;
            &&& forall|k: int| 0 <= k < c.notes.len() ==> note_good(#[trigger] c.notes[k], c.resources)
            &&& forall|k: int| 0 <= k < c.bgm.len() ==> has_key(c.resources, (#[trigger] c.bgm[k]).sound_id)
        }),
{
    let p = parse_text(src)->Ok_0;
    let res = crate::manifest::resources_spec(p.meta, p.meta_line, mf)->Ok_0;
    let times = time_map(p.track)->Ok_0;
    let g = generate(p.track, times, res)->Ok_0;
    lemma_parse_valid(src);
    lemma_time_map_increasing(p.track);
    lemma_generate(p.track, times, res);
    lemma_sort_notes(g.0);
    lemma_sort_bgm(g.1);
    let c = compile_text(src, mf)->Ok_0;
    assert forall|k: int| 0 <= k < c.notes.len() implies note_good(#[trigger] c.notes[k], c.resources) by {
        assert(g.0.contains(c.notes[k]));
        let m = choose|m: int| 0 <= m < g.0.len() && g.0[m] == c.notes[k];
        assert(note_good(g.0[m], res));
    }
    assert forall|k: int| 0 <= k < c.bgm.len() implies has_key(c.resources, (#[trigger] c.bgm[k]).sound_id) by {
        assert(g.1.contains(c.bgm[k]));
        let m = choose|m: int| 0 <= m < g.1.len() && g.1[m] == c.bgm[k];
        assert(has_key(res, g.1[m].sound_id));
    }
}

/// In every compiled chart, every hold note ends strictly after it starts.
pub proof fn law_holds_end_after_start(src: Seq<char>, mf: ManifestV)
    requires
        compile_text(src, mf) is Ok,
    ensures
        ({
            let c = compile_text(src, mf)->Ok_0;
            forall|k: int| 0 <= k < c.notes.len() && (#[trigger] c.notes[k]).kind.end() is Some
                ==> c.notes[k].kind.end()->Some_0 > c.notes[k].time_us
        }),
{
    lemma_compiled_notes(src, mf);
    let c = compile_text(src, mf)->Ok_0;
    assert forall|k: int| 0 <= k < c.notes.len() && (#[trigger] c.notes[k]).kind.end() is Some
        implies c.notes[k].kind.end()->Some_0 > c.notes[k].time_us by {
        assert(note_good(c.notes[k], c.resources));
    }
}

/// In every compiled chart, the reverse checkpoints of every multi-spin
/// scratch are strictly ascending (so without repeats) and never equal its end time.
pub proof fn law_checkpoints_ascending_without_end(src: Seq<char>, mf: ManifestV)
    requires
        compile_text(src, mf) is Ok,
    ensures
        ({
            let c = compile_text(src, mf)->Ok_0;
            forall|k: int| 0 <= k < c.notes.len() && (#[trigger] c.notes[k]).kind.checkpoints() is Some ==> {
                let cps = c.notes[k].kind.checkpoints()->Some_0;
                &&& forall|i: int, j: int| 0 <= i < j < cps.len() ==> cps[i] < cps[j]
                &&& forall|i: int| 0 <= i < cps.len() ==> cps[i] != c.notes[k].kind.end()->Some_0
            }
        }),
{
    lemma_compiled_notes(src, mf);
    let c = compile_text(src, mf)->Ok_0;
    assert forall|k: int| 0 <= k < c.notes.len() && (#[trigger] c.notes[k]).kind.checkpoints() is Some implies {
        let cps = c.notes[k].kind.checkpoints()->Some_0;
        &&& forall|i: int, j: int| 0 <= i < j < cps.len() ==> cps[i] < cps[j]
        &&& forall|i: int| 0 <= i < cps.len() ==> cps[i] != c.notes[k].kind.end()->Some_0
    } by {
        assert(note_good(c.notes[k], c.resources));
        let cps = c.notes[k].kind.checkpoints()->Some_0;
        assert forall|i: int| 0 <= i < cps.len() implies cps[i] != c.notes[k].kind.end()->Some_0 by {
            if cps[i] == c.notes[k].kind.end()->Some_0 {
                assert(cps.contains(cps[i]));
            }
        }
    }
}

/// In every compiled chart, every sound id a note or a background event
/// refers to is a key of the chart's resources.
pub proof fn law_sound_ids_in_resources(src: Seq<char>, mf: ManifestV)
    requires
        compile_text(src, mf) is Ok,
    ensures
        ({
            let c = compile_text(src, mf)->Ok_0;
            &&& forall|k: int| 0 <= k < c.notes.len() && (#[trigger] c.notes[k]).sound_id is Some
                ==> has_key(c.resources, c.notes[k].sound_id->Some_0)
            &&& forall|k: int| 0 <= k < c.bgm.len() ==> has_key(c.resources, (#[trigger] c.bgm[k]).sound_id)
        }),
{
    lemma_compiled_notes(src, mf);
    let c = compile_text(src, mf)->Ok_0;
    assert forall|k: int| 0 <= k < c.notes.len() && (#[trigger] c.notes[k]).sound_id is Some
        implies has_key(c.resources, c.notes[k].sound_id->Some_0) by {
        assert(note_good(c.notes[k], c.resources));
    }
}

} // verus!
