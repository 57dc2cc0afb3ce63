use vstd::prelude::*;

use crate::error::{CompileError, ErrInfo, ErrorCode, info};
use crate::tail::{RevSpec, RevV};

verus! {

/// Start times of the steps `idx, idx + n, ...` strictly before step `end`.
pub open spec fn every_from(idx: int, end: int, n: nat, times: Seq<u64>) -> Seq<u64>
    decreases (if idx < end {
        end - idx
    } else {
        0
    }),
{
    if n == 0 || idx >= end {
        Seq::empty()
    } else {
        (if 0 <= idx < times.len() {
            seq![times[idx]]
        } else {
            Seq::<u64>::empty()
        }) + every_from(idx + n, end, n, times)
    }
}

/// Start times of the steps `start + (a - 1)` for each `a` of `at`, when
/// strictly before step `end`.
pub open spec fn at_list(start: int, end: int, at: Seq<usize>, times: Seq<u64>) -> Seq<u64>
    decreases at.len(),
{
    if at.len() == 0 {
        Seq::empty()
    } else {
        let idx = start + at.last() - 1;
        at_list(start, end, at.drop_last(), times) + (if at.last() >= 1 && idx < end && 0 <= idx
            < times.len() {
            seq![times[idx]]
        } else {
            Seq::<u64>::empty()
        })
    }
}

/// Every reverse-checkpoint candidate of a multi-spin scratch from step
/// `start` to step `end`: its markers, its `@rev_every` steps, its `@rev_at` steps.
pub open spec fn candidates(start: int, end: int, times: Seq<u64>, rev: RevV, markers: Seq<u64>) -> Seq<u64> {
    markers + (match rev.every {
        Some(n) => every_from(start + n, end, n as nat, times),
        None => Seq::empty(),
    }) + at_list(start, end, rev.at, times)
}

pub open spec fn strictly_sorted(s: Seq<u64>) -> bool {
    forall|i: int, j: int| 0 <= i < j < s.len() ==> s[i] < s[j]
}

/// Whether `s` lists, in ascending order and once each, the elements of `c` other than `excl`.
pub open spec fn lists_members(s: Seq<u64>, c: Seq<u64>, excl: u64) -> bool {
    strictly_sorted(s) && forall|t: u64| s.contains(t) <==> (c.contains(t) && t != excl)
}

/// The elements of `c` other than `excl`, ascending, without repeats.
pub open spec fn sorted_members(c: Seq<u64>, excl: u64) -> Seq<u64> {
    choose|s: Seq<u64>| lists_members(s, c, excl)
}

/// The reverse checkpoints of a multi-spin scratch: every candidate but the
/// end time, ascending, without repeats.
pub open spec fn checkpoints_spec(start: int, end: int, end_time: u64, times: Seq<u64>, rev: RevV, markers: Seq<u64>) -> Seq<u64> {
    sorted_members(candidates(start, end, times, rev, markers), end_time)
}

/// The reverse checkpoints of a multi-spin scratch closing at step `end`, or
/// the failure at `line` when it does not close after its start step.
pub open spec fn checkpoints_result(start: usize, end: usize, end_time: u64, times: Seq<u64>, rev: RevV, markers: Seq<u64>, line: usize) -> Result<Seq<u64>, ErrInfo> {
    if end <= start {
        Err(info(ErrorCode::E4101, line as nat, "invalid MSS toggle range"@))
    } else {
        Ok(checkpoints_spec(start as int, end as int, end_time, times, rev, markers))
    }
}

/// Two ascending repeat-free sequences with the same elements are equal.
pub proof fn lemma_sorted_unique(a: Seq<u64>, b: Seq<u64>)
    requires
        strictly_sorted(a),
        strictly_sorted(b),
        forall|t: u64| a.contains(t) <==> b.contains(t),
    ensures
        a == b,
    decreases a.len() + b.len(),
{
    if a.len() == 0 {
        if b.len() > 0 {
            assert(b.contains(b[0]));
        }
        assert(a =~= b);
    } else if b.len() == 0 {
        assert(a.contains(a[0]));
    } else {
        assert(a.contains(a[0]));
        assert(b.contains(b[0]));
        let ia = choose|i: int| 0 <= i < a.len() && a[i] == b[0];
        let ib = choose|i: int| 0 <= i < b.len() && b[i] == a[0];
        assert(a[0] <= a[ia]);
        assert(b[0] <= b[ib]);
        assert(a[0] == b[0]);
        let a1 = a.drop_first();
        let b1 = b.drop_first();
        assert forall|t: u64| a1.contains(t) <==> b1.contains(t) by {
            if a1.contains(t) {
                let i = choose|i: int| 0 <= i < a1.len() && a1[i] == t;
                assert(a[i + 1] == t);
                assert(a.contains(t));
                let j = choose|j: int| 0 <= j < b.len() && b[j] == t;
                assert(j != 0);
                assert(b1[j - 1] == t);
            }
            if b1.contains(t) {
                let i = choose|i: int| 0 <= i < b1.len() && b1[i] == t;
                assert(b[i + 1] == t);
                assert(b.contains(t));
                let j = choose|j: int| 0 <= j < a.len() && a[j] == t;
                assert(j != 0);
                assert(a1[j - 1] == t);
            }
        }
        lemma_sorted_unique(a1, b1);
        assert(a =~= seq![a[0]] + a1);
        assert(b =~= seq![b[0]] + b1);
    }
}

/// Adds `x` to an ascending repeat-free vector, keeping it so.
fn insert_sorted(out: &mut Vec<u64>, x: u64)
    requires
        strictly_sorted(old(out)@),
    ensures
        strictly_sorted(final(out)@),
        forall|t: u64| final(out)@.contains(t) <==> (old(out)@.contains(t) || t == x),
{
    let mut p: usize = 0;
    while p < out.len() && out[p] < x
        invariant
            p <= out.len(),
            forall|k: int| 0 <= k < p ==> out@[k] < x,
        decreases out.len() - p,
    {
        p = p + 1;
    }
    if p < out.len() && out[p] == x {
        assert forall|t: u64| out@.contains(t) <==> (out@.contains(t) || t == x) by {
            if t == x {
                assert(out@[p as int] == x);
            }
        }
        return;
    }
    let ghost before = out@;
    out.insert(p, x);
    proof {
        before.insert_ensures(p as int, x);
        let s = out@;
        assert forall|i: int, j: int| 0 <= i < j < s.len() implies s[i] < s[j] by {
            if j < p {
            } else if j == p {
            } else if i < p {
                assert(s[j] == before[j - 1]);
                assert(before[j - 1] >= x);
            } else if i == p {
                assert(s[j] == before[j - 1]);
                assert(before[p as int] > x);
                if j - 1 > p {
                    assert(before[p as int] < before[j - 1]);
                }
            } else {
                assert(s[i] == before[i - 1]);
                assert(s[j] == before[j - 1]);
            }
        }
        assert forall|t: u64| s.contains(t) <==> (before.contains(t) || t == x) by {
            if s.contains(t) {
                let i = choose|i: int| 0 <= i < s.len() && s[i] == t;
                if i < p {
                    assert(before[i] == t);
                } else if i > p {
                    assert(before[i - 1] == t);
                }
            }
            if before.contains(t) {
                let i = choose|i: int| 0 <= i < before.len() && before[i] == t;
                if i < p {
                    assert(s[i] == t);
                } else {
                    assert(s[i + 1] == t);
                }
            }
            if t == x {
                assert(s[p as int] == x);
            }
        }
    }
}

/// The reverse checkpoints of a multi-spin scratch that starts at step
/// `start_step` and closes at step `end_step` (time `end_time_us`).
pub fn compute_mss_checkpoints(
    start_step: usize,
    end_step: usize,
    end_time_us: u64,
    step_times: &Vec<u64>,
    rev: &RevSpec,
    marker_us: &Vec<u64>,
    line: usize,
) -> (r: Result<Vec<u64>, CompileError>)
    ensures
        match (r, checkpoints_result(start_step, end_step, end_time_us, step_times@, rev@, marker_us@, line)) {
            (Ok(v), Ok(s)) => v@ == s,
            (Err(e), Err(i)) => e.is(i),
            _ => false,
        },
        r matches Ok(v) ==> lists_members(v@, candidates(start_step as int, end_step as int, step_times@, rev@, marker_us@), end_time_us),
{
    if end_step <= start_step {
        let mut m = String::new();
        m.append("invalid MSS toggle range");
        return Err(CompileError::new(ErrorCode::E4101, m, line));
    }
    let ghost times = step_times@;
    let mut cand: Vec<u64> = Vec::new();
    let mut i: usize = 0;
    while i < marker_us.len()
        invariant
            i <= marker_us.len(),
            cand@ == marker_us@.subrange(0, i as int),
        decreases marker_us.len() - i,
    {
        cand.push(marker_us[i]);
        i = i + 1;
        assert(cand@ =~= marker_us@.subrange(0, i as int));
    }
    assert(marker_us@.subrange(0, marker_us.len() as int) =~= marker_us@);
    let ghost c1 = cand@;
    let ghost every_part = match rev.every {
        Some(n) => every_from(start_step + n, end_step as int, n as nat, times),
        None => Seq::<u64>::empty(),
    };
    match rev.every {
        Some(n) => {
            if n > 0 {
                let mut idx: usize = match start_step.checked_add(n) {
                    Some(v) => v,
                    None => end_step,
                };
                assert(c1 + every_from(start_step + n, end_step as int, n as nat, times) == cand@ + every_from(idx as int, end_step as int, n as nat, times));
                while idx < end_step
                    invariant
                        n > 0,
                        c1 + every_from(start_step + n, end_step as int, n as nat, times) == cand@ + every_from(idx as int, end_step as int, n as nat, times),
                        times == step_times@,
                    decreases (if idx < end_step {
                        end_step - idx
                    } else {
                        0
                    }),
                {
                    let ghost before = cand@;
                    if idx < step_times.len() {
                        cand.push(step_times[idx]);
                    }
                    assert(every_from(idx as int, end_step as int, n as nat, times) =~= (if 0 <= idx < times.len() {
                        seq![times[idx as int]]
                    } else {
                        Seq::<u64>::empty()
                    }) + every_from(idx + n, end_step as int, n as nat, times));
                    match idx.checked_add(n) {
                        Some(v) => {
                            assert(cand@ + every_from(v as int, end_step as int, n as nat, times) =~= before + every_from(idx as int, end_step as int, n as nat, times));
                            idx = v;
                        },
                        None => {
                            assert(every_from(idx + n, end_step as int, n as nat, times) =~= Seq::<u64>::empty());
                            assert(every_from(end_step as int, end_step as int, n as nat, times) =~= Seq::<u64>::empty());
                            assert(cand@ + every_from(end_step as int, end_step as int, n as nat, times) =~= before + every_from(idx as int, end_step as int, n as nat, times));
                            idx = end_step;
                        },
                    }
                }
                assert(every_from(idx as int, end_step as int, n as nat, times) =~= Seq::<u64>::empty());
                assert(cand@ =~= c1 + every_part);
            } else {
                assert(every_part =~= Seq::<u64>::empty());
                assert(cand@ =~= c1 + every_part);
            }
        },
        None => {
            assert(cand@ =~= c1 + every_part);
        },
    }
    let ghost c2 = cand@;
    let mut j: usize = 0;
    assert(rev@.at.subrange(0, 0) =~= Seq::<usize>::empty());
    assert(c2 =~= c2 + at_list(start_step as int, end_step as int, rev@.at.subrange(0, 0), times));
    while j < rev.at.len()
        invariant
            j <= rev.at.len(),
            times == step_times@,
            cand@ == c2 + at_list(start_step as int, end_step as int, rev@.at.subrange(0, j as int), times),
        decreases rev.at.len() - j,
    {
        let a = rev.at[j];
        let ghost before = cand@;
        assert(rev@.at.subrange(0, j + 1).drop_last() =~= rev@.at.subrange(0, j as int));
        if a >= 1 {
            match start_step.checked_add(a - 1) {
                Some(idx) => {
                    if idx < end_step && idx < step_times.len() {
                        cand.push(step_times[idx]);
                    }
                },
                None => {},
            }
        }
        assert(cand@ =~= c2 + at_list(start_step as int, end_step as int, rev@.at.subrange(0, j + 1), times));
        j = j + 1;
    }
    assert(rev@.at.subrange(0, rev.at.len() as int) =~= rev@.at);
    let ghost all = cand@;
    assert(all =~= candidates(start_step as int, end_step as int, times, rev@, marker_us@));
    let mut out: Vec<u64> = Vec::new();
    let mut k: usize = 0;
    while k < cand.len()
        invariant
            k <= cand.len(),
            all == cand@,
            strictly_sorted(out@),
            forall|t: u64| out@.contains(t) <==> (cand@.subrange(0, k as int).contains(t) && t != end_time_us),
        decreases cand.len() - k,
    {
        let x = cand[k];
        let ghost before = out@;
        if x != end_time_us {
            insert_sorted(&mut out, x);
        }
        let ghost sk = cand@.subrange(0, k as int);
        let ghost sk1 = cand@.subrange(0, k + 1);
        assert forall|t: u64| out@.contains(t) <==> (sk1.contains(t) && t != end_time_us) by {
            if sk.contains(t) {
                let i = choose|i: int| 0 <= i < sk.len() && sk[i] == t;
                assert(sk1[i] == t);
            }
            if sk1.contains(t) {
                let i = choose|i: int| 0 <= i < sk1.len() && sk1[i] == t;
                if i < k {
                    assert(sk[i] == t);
                }
            }
            if t == x {
                assert(sk1[k as int] == x);
            }
        }
        k = k + 1;
    }
    assert(cand@.subrange(0, cand.len() as int) =~= cand@);
    proof {
        let c = candidates(start_step as int, end_step as int, times, rev@, marker_us@);
        assert(lists_members(out@, c, end_time_us));
        let s = sorted_members(c, end_time_us);
        assert(lists_members(s, c, end_time_us));
        lemma_sorted_unique(out@, s);
    }
    Ok(out)
}

} // verus!
