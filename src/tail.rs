use vstd::prelude::*;

use crate::error::{CompileError, ErrInfo, ErrorCode, ctx_msg, info, lane_ctx_msg};
use crate::numbers::{parse_uint, uint_text};
use crate::text::{
    any_ws, chars_of, contains_ws, eq_chars, find_seq, find_seq_from, is_prefix, is_ws,
    is_ws_char, lemma_find_seq_from_bounds, lemma_skip_ws_from_bounds, slice_of,
    starts_with, to_string, trim, trim_chars, trim_start, trim_start_chars,
};

verus! {

/// Pieces of `s` between occurrences of `c`; always at least one piece.
pub open spec fn split_on(s: Seq<char>, c: char) -> Seq<Seq<char>>
    decreases s.len(),
{
    if s.len() == 0 {
        seq![Seq::<char>::empty()]
    } else {
        let p = split_on(s.drop_last(), c);
        if s.last() == c {
            p.push(Seq::<char>::empty())
        } else {
            p.update(p.len() - 1, p.last().push(s.last()))
        }
    }
}

pub open spec fn chars_views(v: Seq<Vec<char>>) -> Seq<Seq<char>> {
    v.map_values(|x: Vec<char>| x@)
}

pub fn split_chars(v: &Vec<char>, c: char) -> (r: Vec<Vec<char>>)
    ensures
        chars_views(r@) == split_on(v@, c),
{
    let mut out: Vec<Vec<char>> = Vec::new();
    let mut cur: Vec<char> = Vec::new();
    let mut i: usize = 0;
    assert(v@.subrange(0, 0) =~= Seq::<char>::empty());
    assert(chars_views(out@).push(cur@) =~= split_on(v@.subrange(0, 0), c));
    while i < v.len()
        invariant
            i <= v.len(),
            chars_views(out@).push(cur@) == split_on(v@.subrange(0, i as int), c),
        decreases v.len() - i,
    {
        let ghost pre = v@.subrange(0, i as int);
        assert(v@.subrange(0, i + 1).drop_last() =~= pre);
        if v[i] == c {
            out.push(cur);
            cur = Vec::new();
            assert(chars_views(out@).push(cur@) =~= split_on(v@.subrange(0, i + 1), c));
        } else {
            cur.push(v[i]);
            assert(chars_views(out@).push(cur@) =~= split_on(v@.subrange(0, i + 1), c));
        }
        i = i + 1;
    }
    assert(v@.subrange(0, v.len() as int) =~= v@);
    out.push(cur);
    assert(chars_views(out@) =~= split_on(v@, c));
    out
}

/// What a step line says about sounds.
#[derive(Debug, Clone)]
pub enum SoundSpec {
    NoSound,
    Single(String),
    PerLane(Vec<Option<String>>),
}

pub enum SoundV {
    NoSound,
    Single(Seq<char>),
    PerLane(Seq<Option<Seq<char>>>),
}

pub open spec fn opt_str_view(o: Option<String>) -> Option<Seq<char>> {
    match o {
        Some(s) => Some(s@),
        None => None,
    }
}

impl View for SoundSpec {
    type V = SoundV;

    open spec fn view(&self) -> SoundV {
        match self {
            SoundSpec::NoSound => SoundV::NoSound,
            SoundSpec::Single(s) => SoundV::Single(s@),
            SoundSpec::PerLane(v) => SoundV::PerLane(v@.map_values(|o: Option<String>| opt_str_view(o))),
        }
    }
}

impl SoundSpec {
    pub open spec fn wf(&self) -> bool {
        match self {
            SoundSpec::PerLane(v) => v@.len() == 8,
            _ => true,
        }
    }
}

/// Index of the first empty piece at or after `i`, or `parts.len()`.
pub open spec fn first_empty_from(parts: Seq<Seq<char>>, i: int) -> int
    decreases parts.len() - i,
{
    if 0 <= i < parts.len() && parts[i].len() != 0 {
        first_empty_from(parts, i + 1)
    } else {
        i
    }
}

/// The trimmed comma-separated slots of a bracketed sound list.
pub open spec fn sound_slots(s: Seq<char>) -> Seq<Seq<char>> {
    split_on(s.subrange(1, s.len() - 1), ',').map_values(|p: Seq<char>| trim(p))
}

pub open spec fn slot_sound(p: Seq<char>) -> Option<Seq<char>> {
    if p == "-"@ {
        None
    } else {
        Some(p)
    }
}

/// The sound part of a step tail: empty or `[]`, a lane list of eight slots,
/// or one whitespace-free identifier.
pub open spec fn sound_text(s0: Seq<char>, ctx: Seq<char>, line: nat) -> Result<SoundV, ErrInfo> {
    let s = trim(s0);
    if s.len() == 0 || s == "[]"@ {
        Ok(SoundV::NoSound)
    } else if s[0] == '[' {
        if s.last() != ']' {
            Err(info(ErrorCode::E1001, line, ctx_msg("invalid SOUND_SPEC array"@, ctx)).ctx(ctx))
        } else {
            let parts = sound_slots(s);
            if parts.len() != 8 {
                Err(info(ErrorCode::E1002, line, ctx_msg("SOUND_SPEC lane array must have 8 slots"@, ctx)).ctx(ctx))
            } else if first_empty_from(parts, 0) < 8 {
                let k = first_empty_from(parts, 0);
                Err(info(ErrorCode::E1003, line, lane_ctx_msg("invalid SOUND_SPEC slot"@, k as nat, ctx)).lane(k as u8).ctx(ctx))
            } else {
                Ok(SoundV::PerLane(parts.map_values(|p: Seq<char>| slot_sound(p))))
            }
        }
    } else if any_ws(s) {
        Err(info(ErrorCode::E1001, line, ctx_msg("invalid SOUND_SPEC token"@, ctx)).ctx(ctx))
    } else {
        Ok(SoundV::Single(s))
    }
}

/// Whether `r` is the outcome `s`: the same value, or the same failure.
pub open spec fn res_is<T: View>(r: Result<T, CompileError>, s: Result<T::V, ErrInfo>) -> bool {
    match r {
        Ok(x) => s == Ok::<T::V, ErrInfo>(x@),
        Err(e) => s is Err && e.is(s->Err_0),
    }
}

pub fn err_ctx(code: ErrorCode, what: &str, ctx: &Vec<char>, line: usize) -> (r: CompileError)
    ensures
        r.is(info(code, line as nat, ctx_msg(what@, ctx@)).ctx(ctx@)),
{
    let mut m = String::new();
    m.append(what);
    m.append(" (context=");
    let c = to_string(ctx);
    m.append(c.as_str());
    m.append(")");
    CompileError::new(code, m, line).with_context(c)
}

fn lane_err_ctx(code: ErrorCode, what: &str, lane: usize, ctx: &Vec<char>, line: usize) -> (r: CompileError)
    requires
        lane < 256,
    ensures
        r.is(info(code, line as nat, lane_ctx_msg(what@, lane as nat, ctx@)).lane(lane as u8).ctx(ctx@)),
{
    let mut m = String::new();
    m.append(what);
    m.append(" (lane=");
    crate::text::push_decimal(&mut m, lane as u64);
    m.append(", context=");
    let c = to_string(ctx);
    m.append(c.as_str());
    m.append(")");
    CompileError::new(code, m, line).with_lane(lane as u8).with_context(c)
}

#[verifier::loop_isolation(false)]
pub fn parse_sound_spec(s0: &Vec<char>, ctx: &Vec<char>, line: usize) -> (r: Result<SoundSpec, CompileError>)
    ensures
        res_is(r, sound_text(s0@, ctx@, line as nat)),
        r matches Ok(x) ==> x.wf(),
{
    let s = trim_chars(s0);
    if s.len() == 0 || eq_chars(&s, &chars_of("[]")) {
        return Ok(SoundSpec::NoSound);
    }
    if s[0] == '[' {
        if s[s.len() - 1] != ']' {
            return Err(err_ctx(ErrorCode::E1001, "invalid SOUND_SPEC array", ctx, line));
        }
        let inner = slice_of(&s, 1, s.len() - 1);
        let raw = split_chars(&inner, ',');
        let ghost parts = sound_slots(s@);
        if raw.len() != 8 {
            return Err(err_ctx(ErrorCode::E1002, "SOUND_SPEC lane array must have 8 slots", ctx, line));
        }
        let mut lanes: Vec<Option<String>> = Vec::new();
        let mut i: usize = 0;
        while i < 8
            invariant
                raw@.len() == 8,
                i <= 8,
                parts.len() == 8,
                parts == chars_views(raw@).map_values(|p: Seq<char>| trim(p)),
                first_empty_from(parts, i as int) == first_empty_from(parts, 0),
                lanes@.len() == i,
                forall|k: int| 0 <= k < i ==> #[trigger] opt_str_view(lanes@[k]) == slot_sound(parts[k]),
            decreases 8 - i,
        {
            let p = trim_chars(&raw[i]);
            assert(p@ == parts[i as int]);
            if p.len() == 0 {
                assert(first_empty_from(parts, i as int) == i);
                return Err(lane_err_ctx(ErrorCode::E1003, "invalid SOUND_SPEC slot", i, ctx, line));
            }
            if eq_chars(&p, &chars_of("-")) {
                lanes.push(None);
            } else {
                lanes.push(Some(to_string(&p)));
            }
            i = i + 1;
        }
        let ghost lv = lanes@.map_values(|o: Option<String>| opt_str_view(o));
        assert(lv =~= parts.map_values(|p: Seq<char>| slot_sound(p)));
        return Ok(SoundSpec::PerLane(lanes));
    }
    if contains_ws(&s) {
        return Err(err_ctx(ErrorCode::E1001, "invalid SOUND_SPEC token", ctx, line));
    }
    Ok(SoundSpec::Single(to_string(&s)))
}

/// The `@rev_every` / `@rev_at` settings of a multi-spin-scratch start line.
#[derive(Debug, Clone)]
pub struct RevSpec {
    pub every: Option<usize>,
    pub at: Vec<usize>,
}

pub struct RevV {
    pub every: Option<usize>,
    pub at: Seq<usize>,
}

impl View for RevSpec {
    type V = RevV;

    open spec fn view(&self) -> RevV {
        RevV { every: self.every, at: self.at@ }
    }
}

pub open spec fn no_rev() -> RevV {
    RevV { every: None, at: Seq::empty() }
}

impl RevV {
    pub open spec fn is_empty(self) -> bool {
        self.every.is_none() && self.at.len() == 0
    }
}

impl Default for RevSpec {
    fn default() -> (r: Self)
        ensures
            r@ == no_rev(),
    {
        RevSpec { every: None, at: Vec::new() }
    }
}

/// Index of the first whitespace character at or after `i`, or `s.len()`.
pub open spec fn find_ws_from(s: Seq<char>, i: int) -> int
    decreases s.len() - i,
{
    if 0 <= i < s.len() && !is_ws_char(s[i]) {
        find_ws_from(s, i + 1)
    } else {
        i
    }
}

pub proof fn lemma_find_ws_from_bounds(s: Seq<char>, i: int)
    requires
        0 <= i <= s.len(),
    ensures
        i <= find_ws_from(s, i) <= s.len(),
    decreases s.len() - i,
{
    if i < s.len() && !is_ws_char(s[i]) {
        lemma_find_ws_from_bounds(s, i + 1);
    }
}

/// The first whitespace-free token of `s` (after leading whitespace) and what follows it.
pub open spec fn first_token(s: Seq<char>) -> (Seq<char>, Seq<char>) {
    let t = trim_start(s);
    let i = find_ws_from(t, 0);
    (t.subrange(0, i), t.subrange(i, t.len() as int))
}

pub proof fn lemma_first_token_len(s: Seq<char>)
    ensures
        first_token(s).1.len() <= s.len(),
{
    lemma_skip_ws_from_bounds(s, 0);
    lemma_find_ws_from_bounds(trim_start(s), 0);
}

pub proof fn lemma_trim_start_len(s: Seq<char>)
    ensures
        trim_start(s).len() <= s.len(),
{
    lemma_skip_ws_from_bounds(s, 0);
}

pub fn split_first_token(s: &Vec<char>) -> (r: (Vec<char>, Vec<char>))
    ensures
        (r.0@, r.1@) == first_token(s@),
{
    let t = trim_start_chars(s);
    let mut i: usize = 0;
    while i < t.len() && !is_ws(t[i])
        invariant
            i <= t.len(),
            find_ws_from(t@, i as int) == find_ws_from(t@, 0),
        decreases t.len() - i,
    {
        i = i + 1;
    }
    (slice_of(&t, 0, i), slice_of(&t, i, t.len()))
}

/// One `@rev_at` entry: a step number of at least 2.
pub open spec fn at_value(p: Seq<char>) -> Option<usize> {
    match uint_text(p) {
        Some(n) => if 2 <= n <= usize::MAX {
            Some(n as usize)
        } else {
            None
        },
        None => None,
    }
}

/// The values of a `@rev_at` list, or `None` if any entry is not valid.
pub open spec fn at_values(parts: Seq<Seq<char>>) -> Option<Seq<usize>>
    decreases parts.len(),
{
    if parts.len() == 0 {
        Some(Seq::empty())
    } else {
        match at_values(parts.drop_last()) {
            Some(vs) => match at_value(trim(parts.last())) {
                Some(v) => Some(vs.push(v)),
                None => None,
            },
            None => None,
        }
    }
}

/// Parses the rev directives in `rest`, starting from the settings `acc`.
pub open spec fn rev_text_from(rest: Seq<char>, acc: RevV, ctx: Seq<char>, line: nat) -> Result<RevV, ErrInfo>
    decreases rest.len(),
{
    if rest.len() == 0 {
        Ok(acc)
    } else if is_prefix("@rev_every"@, rest) {
        let (tok, next) = first_token(rest.subrange("@rev_every"@.len() as int, rest.len() as int));
        proof {
            reveal_strlit("@rev_every");
            lemma_first_token_len(rest.subrange("@rev_every"@.len() as int, rest.len() as int));
            lemma_trim_start_len(next);
        }
        match uint_text(tok) {
            Some(n) => if 1 <= n <= usize::MAX {
                rev_text_from(trim_start(next), RevV { every: Some(n as usize), ..acc }, ctx, line)
            } else if n == 0 {
                Err(info(ErrorCode::E1005, line, ctx_msg("@rev_every must be >= 1"@, ctx)).ctx(ctx))
            } else {
                Err(info(ErrorCode::E1005, line, ctx_msg("invalid @rev_every"@, ctx)).ctx(ctx))
            },
            None => Err(info(ErrorCode::E1005, line, ctx_msg("invalid @rev_every"@, ctx)).ctx(ctx)),
        }
    } else if is_prefix("@rev_at"@, rest) {
        let (tok, next) = first_token(rest.subrange("@rev_at"@.len() as int, rest.len() as int));
        proof {
            reveal_strlit("@rev_at");
            lemma_first_token_len(rest.subrange("@rev_at"@.len() as int, rest.len() as int));
            lemma_trim_start_len(next);
        }
        let list = trim(tok);
        if list.len() == 0 {
            Err(info(ErrorCode::E1004, line, ctx_msg("empty @rev_at list"@, ctx)).ctx(ctx))
        } else {
            match at_values(split_on(list, ',')) {
                Some(vs) => rev_text_from(trim_start(next), RevV { at: vs, ..acc }, ctx, line),
                None => Err(info(ErrorCode::E1004, line, ctx_msg("invalid @rev_at list"@, ctx)).ctx(ctx)),
            }
        }
    } else {
        Err(info(ErrorCode::E1006, line, ctx_msg("unexpected trailing tokens: "@ + rest, ctx)).ctx(ctx))
    }
}

/// A sequence of `@rev_every <n>` and `@rev_at <list>` directives.
pub open spec fn rev_text(s: Seq<char>, ctx: Seq<char>, line: nat) -> Result<RevV, ErrInfo> {
    rev_text_from(trim(s), no_rev(), ctx, line)
}

fn parse_at_values(list: &Vec<char>) -> (r: Option<Vec<usize>>)
    ensures
        match at_values(split_on(list@, ',')) {
            Some(vs) => r matches Some(x) && x@ == vs,
            None => r is None,
        },
{
    let parts = split_chars(list, ',');
    let ghost ps = split_on(list@, ',');
    let mut out: Vec<usize> = Vec::new();
    let mut i: usize = 0;
    assert(ps.subrange(0, 0) =~= Seq::<Seq<char>>::empty());
    while i < parts.len()
        invariant
            i <= parts.len(),
            chars_views(parts@) == ps,
            ps == split_on(list@, ','),
            at_values(ps.subrange(0, i as int)) == Some(out@),
        decreases parts.len() - i,
    {
        assert(ps.subrange(0, i + 1).drop_last() =~= ps.subrange(0, i as int));
        assert(ps.subrange(0, i + 1).last() == parts@[i as int]@);
        let p = trim_chars(&parts[i]);
        match parse_uint(&p, usize::MAX as u64) {
            Some(v) => {
                if v < 2 {
                    assert(at_values(ps.subrange(0, i + 1)) is None);
                    proof { lemma_at_values_none_extends(ps, i as int + 1); }
                    return None;
                }
                out.push(v as usize);
            },
            None => {
                assert(at_values(ps.subrange(0, i + 1)) is None);
                proof { lemma_at_values_none_extends(ps, i as int + 1); }
                return None;
            },
        }
        i = i + 1;
    }
    assert(ps.subrange(0, parts.len() as int) =~= ps);
    Some(out)
}

pub proof fn lemma_at_values_none_extends(ps: Seq<Seq<char>>, i: int)
    requires
        0 <= i <= ps.len(),
        at_values(ps.subrange(0, i)) is None,
    ensures
        at_values(ps) is None,
    decreases ps.len() - i,
{
    if i < ps.len() {
        assert(ps.subrange(0, i + 1).drop_last() =~= ps.subrange(0, i));
        lemma_at_values_none_extends(ps, i + 1);
    } else {
        assert(ps.subrange(0, i) =~= ps);
    }
}

#[verifier::loop_isolation(false)]
pub fn parse_rev_spec(s: &Vec<char>, ctx: &Vec<char>, line: usize) -> (r: Result<RevSpec, CompileError>)
    ensures
        res_is(r, rev_text(s@, ctx@, line as nat)),
{
    let every_kw = chars_of("@rev_every");
    let at_kw = chars_of("@rev_at");
    proof {
        reveal_strlit("@rev_every");
        reveal_strlit("@rev_at");
    }
    let mut spec = RevSpec { every: None, at: Vec::new() };
    let mut rest = trim_chars(s);
    while rest.len() > 0
        invariant
            every_kw@ == "@rev_every"@,
            at_kw@ == "@rev_at"@,
            rev_text_from(rest@, spec@, ctx@, line as nat) == rev_text(s@, ctx@, line as nat),
        decreases rest.len(),
    {
        if starts_with(&rest, &every_kw) {
            let after = slice_of(&rest, every_kw.len(), rest.len());
            let (tok, next) = split_first_token(&after);
            proof {
                lemma_first_token_len(after@);
                lemma_trim_start_len(next@);
            }
            match parse_uint(&tok, usize::MAX as u64) {
                Some(n) => {
                    if n < 1 {
                        return Err(err_ctx(ErrorCode::E1005, "@rev_every must be >= 1", ctx, line));
                    }
                    spec.every = Some(n as usize);
                },
                None => {
                    return Err(err_ctx(ErrorCode::E1005, "invalid @rev_every", ctx, line));
                },
            }
            rest = trim_start_chars(&next);
        } else if starts_with(&rest, &at_kw) {
            let after = slice_of(&rest, at_kw.len(), rest.len());
            let (tok, next) = split_first_token(&after);
            proof {
                lemma_first_token_len(after@);
                lemma_trim_start_len(next@);
            }
            let list = trim_chars(&tok);
            if list.len() == 0 {
                return Err(err_ctx(ErrorCode::E1004, "empty @rev_at list", ctx, line));
            }
            match parse_at_values(&list) {
                Some(vs) => {
                    spec.at = vs;
                },
                None => {
                    return Err(err_ctx(ErrorCode::E1004, "invalid @rev_at list", ctx, line));
                },
            }
            rest = trim_start_chars(&next);
        } else {
            let mut m = String::new();
            m.append("unexpected trailing tokens: ");
            crate::text::push_chars(&mut m, &rest);
            let e = err_ctx(ErrorCode::E1006, m.as_str(), ctx, line);
            return Err(e);
        }
    }
    Ok(spec)
}

/// Where the sound part of a tail ends: the first `@rev_every` or `@rev_at`.
pub open spec fn rev_start(after: Seq<char>) -> int {
    let a = find_seq_from(after, "@rev_every"@, 0);
    let b = find_seq_from(after, "@rev_at"@, 0);
    if a <= b {
        a
    } else {
        b
    }
}

/// The tail of a step line: `: <sound> [@rev_every n] [@rev_at list]`, or rev
/// directives alone.
pub open spec fn tail_text(tail: Seq<char>, ctx: Seq<char>, line: nat) -> Result<(SoundV, RevV), ErrInfo> {
    let rest = trim(tail);
    if rest.len() == 0 {
        Ok((SoundV::NoSound, no_rev()))
    } else if crate::text::has_char(rest, ':') {
        let after = trim(crate::text::after_char(rest, ':'));
        let i = rev_start(after);
        match sound_text(after.subrange(0, i), ctx, line) {
            Err(e) => Err(e),
            Ok(snd) => {
                let r2 = trim(after.subrange(i, after.len() as int));
                if r2.len() == 0 {
                    Ok((snd, no_rev()))
                } else {
                    match rev_text(r2, ctx, line) {
                        Ok(rv) => Ok((snd, rv)),
                        Err(e) => Err(e),
                    }
                }
            },
        }
    } else {
        match rev_text(rest, ctx, line) {
            Ok(rv) => Ok((SoundV::NoSound, rv)),
            Err(e) => Err(e),
        }
    }
}

/// Splits the text after `:` where its rev directives begin.
pub fn split_sound_and_rev(after: &Vec<char>) -> (r: (Vec<char>, Vec<char>))
    ensures
        r.0@ == after@.subrange(0, rev_start(after@)),
        r.1@ == after@.subrange(rev_start(after@), after@.len() as int),
{
    let every_kw = chars_of("@rev_every");
    let at_kw = chars_of("@rev_at");
    let a = find_seq(after, &every_kw);
    let b = find_seq(after, &at_kw);
    proof {
        lemma_find_seq_from_bounds(after@, every_kw@, 0);
        lemma_find_seq_from_bounds(after@, at_kw@, 0);
    }
    let i = if a <= b {
        a
    } else {
        b
    };
    (slice_of(after, 0, i), slice_of(after, i, after.len()))
}

pub fn parse_step_tail(tail: &Vec<char>, ctx: &Vec<char>, line: usize) -> (r: Result<(SoundSpec, RevSpec), CompileError>)
    ensures
        res_is(r, tail_text(tail@, ctx@, line as nat)),
        r matches Ok(x) ==> x.0.wf(),
{
    let rest = trim_chars(tail);
    if rest.len() == 0 {
        return Ok((SoundSpec::NoSound, RevSpec::default()));
    }
    let colon = crate::text::find_char(&rest, ':');
    proof {
        crate::text::lemma_find_from_bounds(rest@, ':', 0);
    }
    if colon < rest.len() {
        let after = trim_chars(&slice_of(&rest, colon + 1, rest.len()));
        let (sound_part, rev_part) = split_sound_and_rev(&after);
        let sound = parse_sound_spec(&sound_part, ctx, line)?;
        let r2 = trim_chars(&rev_part);
        if r2.len() == 0 {
            return Ok((sound, RevSpec::default()));
        }
        let rev = parse_rev_spec(&r2, ctx, line)?;
        Ok((sound, rev))
    } else {
        let rev = parse_rev_spec(&rest, ctx, line)?;
        Ok((SoundSpec::NoSound, rev))
    }
}

} // verus!
