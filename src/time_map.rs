use vstd::prelude::*;

use crate::error::{CompileError, ErrInfo, ErrorCode, info};
use crate::numbers::{Bpm, lemma_pow10_18, lemma_pow10_monotone, pow10};
use crate::parser::{Directive, LineV, TrackLine, track_view, track_wf};

verus! {

/// Microseconds of one step: `(60 / bpm) * (4 / div)` seconds, rounded half
/// up, computed exactly on `bpm = mantissa / 10^scale`.
pub open spec fn step_duration(b: Bpm, div: u32) -> nat {
    let m = b.mantissa as nat;
    let d = div as nat;
    ((480_000_000 * pow10(b.scale as nat) + m * d) / (2 * m * d)) as nat
}

/// Tempo, subdivision and cursor while walking the track.
pub struct TimeState {
    pub bpm: Option<Bpm>,
    pub div: Option<u32>,
    pub cursor: u64,
    pub starts: Seq<u64>,
}

pub open spec fn duration_msg() -> Seq<char> {
    "step duration out of range (bpm/div too extreme)"@
}

pub open spec fn time_step(st: TimeState, l: LineV) -> Result<TimeState, ErrInfo> {
    match l {
        LineV::Directive { directive, .. } => match directive {
            Directive::Bpm(b) => Ok(TimeState { bpm: Some(b), ..st }),
            Directive::Div(d) => Ok(TimeState { div: Some(d), ..st }),
        },
        LineV::Step { line, .. } => match st.bpm {
            None => Err(info(ErrorCode::E3001, line as nat, "@bpm is required before step lines"@)),
            Some(b) => match st.div {
                None => Err(info(ErrorCode::E3002, line as nat, "@div is required before step lines"@)),
                Some(d) => {
                    let dur = step_duration(b, d);
                    if dur == 0 || dur > u64::MAX {
                        Err(info(ErrorCode::E3005, line as nat, duration_msg()))
                    } else if st.cursor + dur > u64::MAX {
                        Err(info(ErrorCode::E3005, line as nat, "time overflow"@))
                    } else {
                        Ok(
                            TimeState {
                                cursor: (st.cursor + dur) as u64,
                                starts: st.starts.push(st.cursor),
                                ..st
                            },
                        )
                    }
                },
            },
        },
    }
}

pub open spec fn time_from(track: Seq<LineV>, i: int, st: TimeState) -> Result<TimeState, ErrInfo>
    decreases track.len() - i,
{
    if i < 0 || i >= track.len() {
        Ok(st)
    } else {
        match time_step(st, track[i]) {
            Ok(s2) => time_from(track, i + 1, s2),
            Err(e) => Err(e),
        }
    }
}

/// The start time of every step line, in order.
pub open spec fn time_map(track: Seq<LineV>) -> Result<Seq<u64>, ErrInfo> {
    match time_from(track, 0, TimeState { bpm: None, div: None, cursor: 0, starts: Seq::empty() }) {
        Ok(st) => Ok(st.starts),
        Err(e) => Err(e),
    }
}

fn msg(s: &str) -> (r: String)
    ensures
        r@ == s@,
{
    let mut m = String::new();
    m.append(s);
    m
}

pub fn step_duration_us(bpm: Bpm, div: u32, line: usize) -> (r: Result<u64, CompileError>)
    requires
        bpm.wf(),
        div >= 1,
    ensures
        match r {
            Ok(d) => d as nat == step_duration(bpm, div) && d > 0,
            Err(e) => e.is(info(ErrorCode::E3005, line as nat, duration_msg())) && (step_duration(bpm, div) == 0
                || step_duration(bpm, div) > u64::MAX),
        },
{
    let mut p: u128 = 1;
    let mut k: u32 = 0;
    proof {
        lemma_pow10_18();
    }
    while k < bpm.scale
        invariant
            k <= bpm.scale,
            bpm.scale <= 18,
            p as nat == pow10(k as nat),
            pow10(18) == 1000000000000000000,
        decreases bpm.scale - k,
    {
        proof {
            lemma_pow10_monotone((k + 1) as nat, 18);
        }
        p = p * 10;
        k = k + 1;
    }
    proof {
        lemma_pow10_monotone(bpm.scale as nat, 18);
    }
    assert(p <= 1000000000000000000);
    let m = bpm.mantissa as u128;
    let d = div as u128;
    assert(2 * m * d <= 2 * 1000000000000000000u128 * 0xFFFF_FFFFu128) by (nonlinear_arith)
        requires
            m < 1000000000000000000,
            d <= 0xFFFF_FFFF,
    ;
    assert(m * d <= 1000000000000000000u128 * 0xFFFF_FFFFu128) by (nonlinear_arith)
        requires
            m < 1000000000000000000,
            d <= 0xFFFF_FFFF,
    ;
    assert(480_000_000u128 * p <= 480_000_000u128 * 1000000000000000000u128) by (nonlinear_arith)
        requires
            p <= 1000000000000000000,
    ;
    let num = 480_000_000u128 * p + m * d;
    let den = 2 * m * d;
    assert(den > 0) by (nonlinear_arith)
        requires
            m > 0,
            d > 0,
            den == 2 * m * d,
    ;
    let us = num / den;
    if us == 0 || us > 0xFFFF_FFFF_FFFF_FFFFu128 {
        return Err(
            CompileError::new(
                ErrorCode::E3005,
                msg("step duration out of range (bpm/div too extreme)"),
                line,
            ),
        );
    }
    Ok(us as u64)
}

pub fn pass1_time_map(track: &Vec<TrackLine>) -> (r: Result<Vec<u64>, CompileError>)
    requires
        track_wf(track@),
    ensures
        match (r, time_map(track_view(track@))) {
            (Ok(v), Ok(s)) => v@ == s,
            (Err(e), Err(i)) => e.is(i),
            _ => false,
        },
{
    let ghost tv = track_view(track@);
    let mut bpm: Option<Bpm> = None;
    let mut div: Option<u32> = None;
    let mut cursor: u64 = 0;
    let mut starts: Vec<u64> = Vec::new();
    let mut i: usize = 0;
    while i < track.len()
        invariant
            i <= track.len(),
            tv == track_view(track@),
            track_wf(track@),
            bpm matches Some(b) ==> b.wf(),
            div matches Some(d) ==> d >= 1,
            time_from(tv, i as int, TimeState { bpm, div, cursor, starts: starts@ }) == time_from(
                tv,
                0,
                TimeState { bpm: None, div: None, cursor: 0, starts: Seq::empty() },
            ),
        decreases track.len() - i,
    {
        assert(track@[i as int].wf());
        match &track[i] {
            TrackLine::Directive { directive, .. } => match directive {
                Directive::Bpm(b) => {
                    bpm = Some(*b);
                },
                Directive::Div(d) => {
                    div = Some(*d);
                },
            },
            TrackLine::Step { line, .. } => {
                let b = match bpm {
                    Some(b) => b,
                    None => {
                        return Err(
                            CompileError::new(
                                ErrorCode::E3001,
                                msg("@bpm is required before step lines"),
                                *line,
                            ),
                        );
                    },
                };
                let d = match div {
                    Some(d) => d,
                    None => {
                        return Err(
                            CompileError::new(
                                ErrorCode::E3002,
                                msg("@div is required before step lines"),
                                *line,
                            ),
                        );
                    },
                };
                let dur = step_duration_us(b, d, *line)?;
                starts.push(cursor);
                match cursor.checked_add(dur) {
                    Some(c) => {
                        cursor = c;
                    },
                    None => {
                        return Err(CompileError::new(ErrorCode::E3005, msg("time overflow"), *line));
                    },
                }
            },
        }
        i = i + 1;
    }
    Ok(starts)
}

} // verus!
