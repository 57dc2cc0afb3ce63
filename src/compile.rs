use vstd::prelude::*;

use crate::error::{CompileError, ErrInfo, ErrorCode, info};
use crate::generate::{generate, pass2_generate};
use crate::manifest::{ManifestFile, ManifestV, load_resources, resources_spec};
use crate::parser::{ParsedMdfs, ParsedV, parse_mdfs, parse_text, track_wf};
use crate::schema::{
    BgmEvent, BgmV, ChartV, MdfChart, Metadata, Note, NoteV, bgm_view, effective_end, notes_view,
};
use crate::tail::res_is;
use crate::time_map::{pass1_time_map, time_map};

verus! {

// ---------------------------------------------------------------- ordering

/// `x` placed after every element whose time is not later (stable insertion).
pub open spec fn ins_note(s: Seq<NoteV>, x: NoteV) -> Seq<NoteV>
    decreases s.len(),
{
    if s.len() == 0 || s.last().time_us <= x.time_us {
        s.push(x)
    } else {
        ins_note(s.drop_last(), x).push(s.last())
    }
}

/// Notes ordered by `time_us`, equal times keeping their order.
pub open spec fn sort_notes(s: Seq<NoteV>) -> Seq<NoteV>
    decreases s.len(),
{
    if s.len() == 0 {
        s
    } else {
        ins_note(sort_notes(s.drop_last()), s.last())
    }
}

pub open spec fn ins_bgm(s: Seq<BgmV>, x: BgmV) -> Seq<BgmV>
    decreases s.len(),
{
    if s.len() == 0 || s.last().time_us <= x.time_us {
        s.push(x)
    } else {
        ins_bgm(s.drop_last(), x).push(s.last())
    }
}

/// Background events ordered by `time_us`, equal times keeping their order.
pub open spec fn sort_bgm(s: Seq<BgmV>) -> Seq<BgmV>
    decreases s.len(),
{
    if s.len() == 0 {
        s
    } else {
        ins_bgm(sort_bgm(s.drop_last()), s.last())
    }
}

proof fn lemma_ins_note(o: Seq<NoteV>, x: NoteV, p: int)
    requires
        0 <= p <= o.len(),
        forall|j: int| p <= j < o.len() ==> (#[trigger] o[j]).time_us > x.time_us,
        p == 0 || o[p - 1].time_us <= x.time_us,
    ensures
        ins_note(o, x) == o.insert(p, x),
    decreases o.len(),
{
    if p == o.len() {
        assert(o.insert(p, x) =~= o.push(x));
    } else {
        lemma_ins_note(o.drop_last(), x, p);
        assert(o.insert(p, x) =~= o.drop_last().insert(p, x).push(o.last()));
    }
}

proof fn lemma_ins_bgm(o: Seq<BgmV>, x: BgmV, p: int)
    requires
        0 <= p <= o.len(),
        forall|j: int| p <= j < o.len() ==> (#[trigger] o[j]).time_us > x.time_us,
        p == 0 || o[p - 1].time_us <= x.time_us,
    ensures
        ins_bgm(o, x) == o.insert(p, x),
    decreases o.len(),
{
    if p == o.len() {
        assert(o.insert(p, x) =~= o.push(x));
    } else {
        lemma_ins_bgm(o.drop_last(), x, p);
        assert(o.insert(p, x) =~= o.drop_last().insert(p, x).push(o.last()));
    }
}

/// Stable sort of notes by time.
pub fn sort_notes_by_time(v: Vec<Note>) -> (r: Vec<Note>)
    ensures
        notes_view(r@) == sort_notes(notes_view(v@)),
{
    let ghost s = notes_view(v@);
    let mut src = v;
    let mut out: Vec<Note> = Vec::new();
    let ghost mut i: int = 0;
    assert(s.subrange(0, 0) =~= Seq::<NoteV>::empty());
    assert(notes_view(src@) =~= s.subrange(0, s.len() as int));
    while src.len() > 0
        invariant
            0 <= i <= s.len(),
            i + src@.len() == s.len(),
            notes_view(src@) == s.subrange(i, s.len() as int),
            notes_view(out@) == sort_notes(s.subrange(0, i)),
        decreases src.len(),
    {
        assert(notes_view(src@)[0] == s[i]);
        let ghost bs = src@;
        let x = src.remove(0);
        assert(x@ == s[i]);
        assert forall|k: int| 0 <= k < src@.len() implies #[trigger] notes_view(src@)[k] == s[i + 1 + k] by {
            assert(src@[k] == bs[k + 1]);
            assert(notes_view(bs)[k + 1] == s.subrange(i, s.len() as int)[k + 1]);
        }
        assert(notes_view(src@) =~= s.subrange(i + 1, s.len() as int));
        let mut p: usize = out.len();
        while p > 0 && out[p - 1].time_us > x.time_us
            invariant
                p <= out.len(),
                forall|j: int| p <= j < out.len() ==> (#[trigger] out@[j]).time_us > x.time_us,
            decreases p,
        {
            p = p - 1;
        }
        let ghost ov = notes_view(out@);
        proof {
            lemma_ins_note(ov, x@, p as int);
            assert(s.subrange(0, i + 1).drop_last() =~= s.subrange(0, i));
        }
        out.insert(p, x);
        assert(notes_view(out@) =~= ov.insert(p as int, x@));
        proof {
            i = i + 1;
        }
    }
    assert(s.subrange(0, i) =~= s);
    out
}

/// Stable sort of background events by time.
pub fn sort_bgm_by_time(v: Vec<BgmEvent>) -> (r: Vec<BgmEvent>)
    ensures
        bgm_view(r@) == sort_bgm(bgm_view(v@)),
{
    let ghost s = bgm_view(v@);
    let mut src = v;
    let mut out: Vec<BgmEvent> = Vec::new();
    let ghost mut i: int = 0;
    assert(s.subrange(0, 0) =~= Seq::<BgmV>::empty());
    assert(bgm_view(src@) =~= s.subrange(0, s.len() as int));
    while src.len() > 0
        invariant
            0 <= i <= s.len(),
            i + src@.len() == s.len(),
            bgm_view(src@) == s.subrange(i, s.len() as int),
            bgm_view(out@) == sort_bgm(s.subrange(0, i)),
        decreases src.len(),
    {
        assert(bgm_view(src@)[0] == s[i]);
        let ghost bs = src@;
        let x = src.remove(0);
        assert(x@ == s[i]);
        assert forall|k: int| 0 <= k < src@.len() implies #[trigger] bgm_view(src@)[k] == s[i + 1 + k] by {
            assert(src@[k] == bs[k + 1]);
            assert(bgm_view(bs)[k + 1] == s.subrange(i, s.len() as int)[k + 1]);
        }
        assert(bgm_view(src@) =~= s.subrange(i + 1, s.len() as int));
        let mut p: usize = out.len();
        while p > 0 && out[p - 1].time_us > x.time_us
            invariant
                p <= out.len(),
                forall|j: int| p <= j < out.len() ==> (#[trigger] out@[j]).time_us > x.time_us,
            decreases p,
        {
            p = p - 1;
        }
        let ghost ov = bgm_view(out@);
        proof {
            lemma_ins_bgm(ov, x@, p as int);
            assert(s.subrange(0, i + 1).drop_last() =~= s.subrange(0, i));
        }
        out.insert(p, x);
        assert(bgm_view(out@) =~= ov.insert(p as int, x@));
        proof {
            i = i + 1;
        }
    }
    assert(s.subrange(0, i) =~= s);
    out
}

// ---------------------------------------------------------------- duration

pub open spec fn max_note_end(s: Seq<NoteV>) -> u64
    decreases s.len(),
{
    if s.len() == 0 {
        0
    } else {
        let a = max_note_end(s.drop_last());
        let b = effective_end(s.last());
        if a >= b {
            a
        } else {
            b
        }
    }
}

pub open spec fn max_bgm_time(s: Seq<BgmV>) -> u64
    decreases s.len(),
{
    if s.len() == 0 {
        0
    } else {
        let a = max_bgm_time(s.drop_last());
        let b = s.last().time_us;
        if a >= b {
            a
        } else {
            b
        }
    }
}

/// The latest effective end over notes and background events; 0 if none.
pub open spec fn total_duration(notes: Seq<NoteV>, bgm: Seq<BgmV>) -> u64 {
    let a = max_note_end(notes);
    let b = max_bgm_time(bgm);
    if a >= b {
        a
    } else {
        b
    }
}

pub fn compute_total_duration_us(notes: &Vec<Note>, bgm_events: &Vec<BgmEvent>) -> (r: u64)
    ensures
        r == total_duration(notes_view(notes@), bgm_view(bgm_events@)),
{
    let ghost ns = notes_view(notes@);
    let ghost bs = bgm_view(bgm_events@);
    let mut a: u64 = 0;
    let mut i: usize = 0;
    assert(ns.subrange(0, 0) =~= Seq::<NoteV>::empty());
    while i < notes.len()
        invariant
            i <= notes.len(),
            ns == notes_view(notes@),
            a == max_note_end(ns.subrange(0, i as int)),
        decreases notes.len() - i,
    {
        let n = &notes[i];
        let end = match n.kind.end_time_us() {
            Some(e) => if e >= n.time_us {
                e
            } else {
                n.time_us
            },
            None => n.time_us,
        };
        assert(ns.subrange(0, i + 1).drop_last() =~= ns.subrange(0, i as int));
        assert(end == effective_end(ns[i as int]));
        if end > a {
            a = end;
        }
        i = i + 1;
    }
    assert(ns.subrange(0, i as int) =~= ns);
    let mut b: u64 = 0;
    let mut j: usize = 0;
    assert(bs.subrange(0, 0) =~= Seq::<BgmV>::empty());
    while j < bgm_events.len()
        invariant
            j <= bgm_events.len(),
            bs == bgm_view(bgm_events@),
            b == max_bgm_time(bs.subrange(0, j as int)),
        decreases bgm_events.len() - j,
    {
        assert(bs.subrange(0, j + 1).drop_last() =~= bs.subrange(0, j as int));
        if bgm_events[j].time_us > b {
            b = bgm_events[j].time_us;
        }
        j = j + 1;
    }
    assert(bs.subrange(0, j as int) =~= bs);
    if a >= b {
        a
    } else {
        b
    }
}

// ---------------------------------------------------------------- compile

/// The chart of a parsed source, given what could be read of its manifest:
/// resources, time map, notes, ordering, duration, then the required metadata.
pub open spec fn compile_parsed_spec(p: ParsedV, mf: ManifestV) -> Result<ChartV, ErrInfo> {
    match resources_spec(p.meta, p.meta_line, mf) {
        Err(e) => Err(e),
        Ok(res) => match time_map(p.track) {
            Err(e) => Err(e),
            Ok(times) => match generate(p.track, times, res) {
                Err(e) => Err(e),
                Ok(g) => {
                    let notes = sort_notes(g.0);
                    let bgm = sort_bgm(g.1);
                    if p.meta.title is None {
                        Err(info(ErrorCode::E3201, p.meta_line as nat, "missing @title"@))
                    } else if p.meta.artist is None {
                        Err(info(ErrorCode::E3202, p.meta_line as nat, "missing @artist"@))
                    } else if p.meta.version is None {
                        Err(info(ErrorCode::E3203, p.meta_line as nat, "missing @version"@))
                    } else {
                        Ok(
                            ChartV {
                                title: p.meta.title.unwrap(),
                                artist: p.meta.artist.unwrap(),
                                version: p.meta.version.unwrap(),
                                total_duration_us: total_duration(notes, bgm),
                                tags: p.meta.tags,
                                resources: res,
                                notes,
                                bgm,
                            },
                        )
                    }
                },
            },
        },
    }
}

/// The chart of a source text.
pub open spec fn compile_text(src: Seq<char>, mf: ManifestV) -> Result<ChartV, ErrInfo> {
    match parse_text(src) {
        Err(e) => Err(e),
        Ok(p) => compile_parsed_spec(p, mf),
    }
}

fn text(s: &str) -> (r: String)
    ensures
        r@ == s@,
{
    let mut m = String::new();
    m.append(s);
    m
}

/// Compiles a parsed source; `manifest` is what could be read of the sound
/// manifest it names (ignored when it names none).
pub fn compile_parsed(parsed: ParsedMdfs, manifest: &ManifestFile) -> (r: Result<MdfChart, CompileError>)
    requires
        track_wf(parsed.track@),
    ensures
        res_is(r, compile_parsed_spec(parsed@, manifest@)),
        r matches Ok(c) ==> c.resources.wf(),
{
    let resources = load_resources(&parsed.meta, parsed.meta_line, manifest)?;
    let step_times = pass1_time_map(&parsed.track)?;
    let (notes, bgm_events) = pass2_generate(&parsed.track, &step_times, &resources)?;
    let notes = sort_notes_by_time(notes);
    let bgm_events = sort_bgm_by_time(bgm_events);
    let total_duration_us = compute_total_duration_us(&notes, &bgm_events);
    let meta_line = parsed.meta_line;
    let title = match parsed.meta.title {
        Some(t) => t,
        None => {
            return Err(CompileError::new(ErrorCode::E3201, text("missing @title"), meta_line));
        },
    };
    let artist = match parsed.meta.artist {
        Some(t) => t,
        None => {
            return Err(CompileError::new(ErrorCode::E3202, text("missing @artist"), meta_line));
        },
    };
    let version = match parsed.meta.version {
        Some(t) => t,
        None => {
            return Err(CompileError::new(ErrorCode::E3203, text("missing @version"), meta_line));
        },
    };
    let meta = Metadata { title, artist, version, total_duration_us, tags: parsed.meta.tags };
    let chart = MdfChart { meta, resources, notes, bgm_events };
    assert(chart@.tags =~= parsed@.meta.tags);
    Ok(chart)
}

/// Compiles a source that names no sound manifest (one that does fails with
/// `E2001`, there being no directory to resolve it against).
pub fn compile_str(src: &str) -> (r: Result<MdfChart, CompileError>)
    ensures
        res_is(r, compile_text(src@, ManifestV::NoBaseDir)),
{
    let parsed = parse_mdfs(src)?;
    compile_parsed(parsed, &ManifestFile::NoBaseDir)
}

/// Compiles a source whose sound manifest, if it names one, holds `manifest`.
pub fn compile_str_with_manifest(src: &str, manifest: Vec<u8>) -> (r: Result<MdfChart, CompileError>)
    ensures
        res_is(r, compile_text(src@, ManifestV::Bytes(manifest@))),
{
    let parsed = parse_mdfs(src)?;
    compile_parsed(parsed, &ManifestFile::Bytes(manifest))
}

} // verus!
