use vstd::prelude::*;

use crate::error::{CompileError, ErrInfo, ErrorCode, ctx_msg, info};
use crate::numbers::{Bpm, bpm_text, parse_bpm, parse_uint, uint_text};
use crate::tail::{
    chars_views, find_ws_from, parse_step_tail, res_is, split_chars,
    split_on, tail_text, RevSpec, RevV, SoundSpec, SoundV, err_ctx,
};
use crate::text::{
    before_char, chars_of, decimal, eq_chars, find_char, is_ws, lemma_find_from_bounds, push_chars,
    push_decimal, slice_of, to_string, trim, trim_chars,
};

verus! {

/// A track directive: a new tempo or a new subdivision.
#[derive(Debug, Clone, Copy, PartialEq, Eq, Structural)]
pub enum Directive {
    Bpm(Bpm),
    Div(u32),
}

/// One meaningful line of the track body.
#[derive(Debug, Clone)]
pub enum TrackLine {
    Directive { line: usize, directive: Directive },
    Step { line: usize, cells: [char; 8], sound: SoundSpec, rev: RevSpec },
}

pub enum LineV {
    Directive { line: usize, directive: Directive },
    Step { line: usize, cells: Seq<char>, sound: SoundV, rev: RevV },
}

impl View for TrackLine {
    type V = LineV;

    open spec fn view(&self) -> LineV {
        match self {
            TrackLine::Directive { line, directive } => LineV::Directive {
                line: *line,
                directive: *directive,
            },
            TrackLine::Step { line, cells, sound, rev } => LineV::Step {
                line: *line,
                cells: cells@,
                sound: sound@,
                rev: rev@,
            },
        }
    }
}

impl TrackLine {
    pub open spec fn wf(&self) -> bool {
        match self {
            TrackLine::Directive { directive, .. } => match directive {
                Directive::Bpm(b) => b.wf(),
                Directive::Div(d) => *d >= 1,
            },
            TrackLine::Step { sound, .. } => sound.wf(),
        }
    }
}

pub open spec fn track_view(t: Seq<TrackLine>) -> Seq<LineV> {
    t.map_values(|l: TrackLine| l@)
}

pub open spec fn track_wf(t: Seq<TrackLine>) -> bool {
    forall|i: int| 0 <= i < t.len() ==> (#[trigger] t[i]).wf()
}

/// Header metadata read before `track: |`.
#[derive(Debug, Clone)]
pub struct ParsedMeta {
    pub title: Option<String>,
    pub artist: Option<String>,
    pub version: Option<String>,
    pub tags: Vec<String>,
    pub sound_manifest: Option<String>,
    pub sound_manifest_line: Option<usize>,
}

pub struct MetaV {
    pub title: Option<Seq<char>>,
    pub artist: Option<Seq<char>>,
    pub version: Option<Seq<char>>,
    pub tags: Seq<Seq<char>>,
    pub sound_manifest: Option<Seq<char>>,
    pub sound_manifest_line: Option<usize>,
}

pub open spec fn strings_view(v: Seq<String>) -> Seq<Seq<char>> {
    v.map_values(|s: String| s@)
}

impl View for ParsedMeta {
    type V = MetaV;

    open spec fn view(&self) -> MetaV {
        MetaV {
            title: crate::tail::opt_str_view(self.title),
            artist: crate::tail::opt_str_view(self.artist),
            version: crate::tail::opt_str_view(self.version),
            tags: strings_view(self.tags@),
            sound_manifest: crate::tail::opt_str_view(self.sound_manifest),
            sound_manifest_line: self.sound_manifest_line,
        }
    }
}

pub open spec fn empty_meta() -> MetaV {
    MetaV {
        title: None,
        artist: None,
        version: None,
        tags: Seq::empty(),
        sound_manifest: None,
        sound_manifest_line: None,
    }
}

/// The parser's output: header metadata, the line of `track: |`, and the track body.
#[derive(Debug, Clone)]
pub struct ParsedMdfs {
    pub meta: ParsedMeta,
    pub meta_line: usize,
    pub track: Vec<TrackLine>,
}

pub struct ParsedV {
    pub meta: MetaV,
    pub meta_line: usize,
    pub track: Seq<LineV>,
}

impl View for ParsedMdfs {
    type V = ParsedV;

    open spec fn view(&self) -> ParsedV {
        ParsedV { meta: self.meta@, meta_line: self.meta_line, track: track_view(self.track@) }
    }
}

// ---------------------------------------------------------------- step lines

pub open spec fn is_step_char(c: char) -> bool {
    c == '.' || c == 'N' || c == 'S' || c == 'l' || c == 'h' || c == 'b' || c == 'm' || c == 'B'
        || c == 'M' || c == '!'
}

pub open spec fn is_scratch_only(c: char) -> bool {
    c == 'S' || c == 'b' || c == 'm' || c == 'B' || c == 'M'
}

/// The rule a cell breaks on lane `idx`, if any.
pub open spec fn cell_check(c: char, idx: int) -> Option<ErrorCode> {
    if !is_step_char(c) {
        Some(ErrorCode::E4001)
    } else if idx != 0 && is_scratch_only(c) {
        Some(ErrorCode::E4002)
    } else if idx != 0 && c == '!' {
        Some(ErrorCode::E4003)
    } else if idx == 0 && (c == 'l' || c == 'h' || c == 'N') {
        Some(ErrorCode::E4001)
    } else {
        None
    }
}

/// The message for a cell that breaks rule `code` on lane `idx` of line `t`.
pub open spec fn cell_msg(code: ErrorCode, idx: int, c: char, t: Seq<char>) -> Seq<char> {
    let what = if code == ErrorCode::E4002 {
        "scratch-only char used on non-scratch lane"@
    } else if code == ErrorCode::E4003 {
        "'!' is only allowed on scratch lane (lane=0)"@
    } else if idx == 0 && (c == 'l' || c == 'h' || c == 'N') {
        "char not allowed on scratch lane"@
    } else {
        "undefined step char"@
    };
    let head = what + " (lane="@ + decimal(idx as nat);
    let with_char = if code != ErrorCode::E4003 {
        (head + ", char='"@).push(c) + "'"@
    } else {
        head
    };
    with_char + ", context="@ + t + ")"@
}

/// The first lane at or after `i` whose cell breaks a rule, or 8.
pub open spec fn first_bad_cell(cells: Seq<char>, i: int) -> int
    decreases 8 - i,
{
    if 0 <= i < 8 && cell_check(cells[i], i) is None {
        first_bad_cell(cells, i + 1)
    } else {
        i
    }
}

/// A trimmed step line: eight cells, then an optional tail.
pub open spec fn step_text(t: Seq<char>, line: nat) -> Result<LineV, ErrInfo> {
    if t.len() < 8 {
        Err(info(ErrorCode::E1101, line, ctx_msg("step line must have 8 chars"@, t)).ctx(t))
    } else {
        let cells = t.subrange(0, 8);
        let k = first_bad_cell(cells, 0);
        if k < 8 {
            let code = cell_check(cells[k], k).unwrap();
            Err(info(code, line, cell_msg(code, k, cells[k], t)).lane(k as u8).ctx(t))
        } else {
            match tail_text(t.subrange(8, t.len() as int), t, line) {
                Ok(st) => Ok(LineV::Step { line: line as usize, cells, sound: st.0, rev: st.1 }),
                Err(e) => Err(e),
            }
        }
    }
}

fn cell_check_exec(c: char, idx: usize) -> (r: Option<ErrorCode>)
    ensures
        r == cell_check(c, idx as int),
{
    let ok = c == '.' || c == 'N' || c == 'S' || c == 'l' || c == 'h' || c == 'b' || c == 'm' || c
        == 'B' || c == 'M' || c == '!';
    if !ok {
        Some(ErrorCode::E4001)
    } else if idx != 0 && (c == 'S' || c == 'b' || c == 'm' || c == 'B' || c == 'M') {
        Some(ErrorCode::E4002)
    } else if idx != 0 && c == '!' {
        Some(ErrorCode::E4003)
    } else if idx == 0 && (c == 'l' || c == 'h' || c == 'N') {
        Some(ErrorCode::E4001)
    } else {
        None
    }
}

fn cell_error(code: ErrorCode, idx: usize, c: char, t: &Vec<char>, line: usize) -> (r: CompileError)
    requires
        idx < 8,
    ensures
        r.is(info(code, line as nat, cell_msg(code, idx as int, c, t@)).lane(idx as u8).ctx(t@)),
{
    let mut m = String::new();
    match code {
        ErrorCode::E4002 => m.append("scratch-only char used on non-scratch lane"),
        ErrorCode::E4003 => m.append("'!' is only allowed on scratch lane (lane=0)"),
        _ => if idx == 0 && (c == 'l' || c == 'h' || c == 'N') {
            m.append("char not allowed on scratch lane")
        } else {
            m.append("undefined step char")
        },
    }
    m.append(" (lane=");
    push_decimal(&mut m, idx as u64);
    let ghost head = m@;
    if code != ErrorCode::E4003 {
        m.append(", char='");
        m.push(c);
        m.append("'");
    }
    m.append(", context=");
    push_chars(&mut m, t);
    m.append(")");
    assert(m@ =~= cell_msg(code, idx as int, c, t@));
    CompileError::new(code, m, line).with_lane(idx as u8).with_context(to_string(t))
}

pub fn parse_step_line(t: &Vec<char>, line: usize) -> (r: Result<TrackLine, CompileError>)
    ensures
        res_is(r, step_text(t@, line as nat)),
        r matches Ok(x) ==> x.wf(),
{
    if t.len() < 8 {
        return Err(err_ctx(ErrorCode::E1101, "step line must have 8 chars", t, line));
    }
    let mut cells: [char; 8] = ['.'; 8];
    let mut i: usize = 0;
    while i < 8
        invariant
            t@.len() >= 8,
            i <= 8,
            forall|k: int| 0 <= k < i ==> cells@[k] == t@[k],
            first_bad_cell(t@.subrange(0, 8), i as int) == first_bad_cell(t@.subrange(0, 8), 0),
        decreases 8 - i,
    {
        let c = t[i];
        assert(t@.subrange(0, 8)[i as int] == c);
        match cell_check_exec(c, i) {
            Some(code) => {
                return Err(cell_error(code, i, c, t, line));
            },
            None => {},
        }
        cells[i] = c;
        i = i + 1;
    }
    assert(cells@ =~= t@.subrange(0, 8));
    let tail = slice_of(t, 8, t.len());
    let (sound, rev) = parse_step_tail(&tail, t, line)?;
    Ok(TrackLine::Step { line, cells, sound, rev })
}

// ---------------------------------------------------------------- directives

/// Index of the first character at or after `i` that is not `@`.
pub open spec fn skip_ats(s: Seq<char>, i: int) -> int
    decreases s.len() - i,
{
    if 0 <= i < s.len() && s[i] == '@' {
        skip_ats(s, i + 1)
    } else {
        i
    }
}

/// The directive's name: its first word without the leading `@`s.
pub open spec fn directive_name(t: Seq<char>) -> Seq<char> {
    let head = t.subrange(0, find_ws_from(t, 0));
    head.subrange(skip_ats(head, 0), head.len() as int)
}

/// The directive's argument: what follows the first whitespace, trimmed.
pub open spec fn directive_rest(t: Seq<char>) -> Seq<char> {
    let i = find_ws_from(t, 0);
    if i < t.len() {
        trim(t.subrange(i + 1, t.len() as int))
    } else {
        Seq::empty()
    }
}

pub fn split_directive(t: &Vec<char>) -> (r: (Vec<char>, Vec<char>))
    ensures
        r.0@ == directive_name(t@),
        r.1@ == directive_rest(t@),
{
    let mut i: usize = 0;
    while i < t.len() && !is_ws(t[i])
        invariant
            i <= t.len(),
            find_ws_from(t@, i as int) == find_ws_from(t@, 0),
        decreases t.len() - i,
    {
        i = i + 1;
    }
    let head = slice_of(t, 0, i);
    let mut a: usize = 0;
    while a < head.len() && head[a] == '@'
        invariant
            a <= head.len(),
            skip_ats(head@, a as int) == skip_ats(head@, 0),
        decreases head.len() - a,
    {
        a = a + 1;
    }
    let name = slice_of(&head, a, head.len());
    let rest = if i < t.len() {
        trim_chars(&slice_of(t, i + 1, t.len()))
    } else {
        Vec::new()
    };
    assert(rest@ =~= directive_rest(t@));
    (name, rest)
}

/// A comma-separated tag list; empty input gives no tags.
pub open spec fn tags_text(s0: Seq<char>, line: nat) -> Result<Seq<Seq<char>>, ErrInfo> {
    let s = trim(s0);
    let parts = split_on(s, ',').map_values(|p: Seq<char>| trim(p));
    if s.len() == 0 {
        Ok(Seq::empty())
    } else if exists|k: int| 0 <= k < parts.len() && (#[trigger] parts[k]).len() == 0 {
        Err(info(ErrorCode::E3204, line, "invalid @tags csv (context=@tags "@ + s + ")"@))
    } else {
        Ok(parts)
    }
}

fn tags_error(s: &Vec<char>, line: usize) -> (r: CompileError)
    ensures
        r.is(info(ErrorCode::E3204, line as nat, "invalid @tags csv (context=@tags "@ + s@ + ")"@)),
{
    let mut m = String::new();
    m.append("invalid @tags csv (context=@tags ");
    push_chars(&mut m, s);
    m.append(")");
    CompileError::new(ErrorCode::E3204, m, line)
}

pub fn parse_tags_csv(s0: &Vec<char>, line: usize) -> (r: Result<Vec<String>, CompileError>)
    ensures
        match (r, tags_text(s0@, line as nat)) {
            (Ok(v), Ok(tags)) => strings_view(v@) == tags,
            (Err(e), Err(i)) => e.is(i),
            _ => false,
        },
{
    let s = trim_chars(s0);
    if s.len() == 0 {
        let v: Vec<String> = Vec::new();
        assert(strings_view(v@) =~= Seq::<Seq<char>>::empty());
        return Ok(v);
    }
    let raw = split_chars(&s, ',');
    let ghost parts = split_on(s@, ',').map_values(|p: Seq<char>| trim(p));
    let mut tags: Vec<String> = Vec::new();
    let mut i: usize = 0;
    while i < raw.len()
        invariant
            i <= raw.len(),
            parts == chars_views(raw@).map_values(|p: Seq<char>| trim(p)),
            parts == split_on(s@, ',').map_values(|p: Seq<char>| trim(p)),
            s@ == trim(s0@),
            s@.len() != 0,
            tags@.len() == i,
            forall|k: int| 0 <= k < i ==> (#[trigger] tags@[k])@ == parts[k] && parts[k].len() != 0,
        decreases raw.len() - i,
    {
        let t = trim_chars(&raw[i]);
        assert(t@ == parts[i as int]);
        if t.len() == 0 {
            assert(parts[i as int].len() == 0);
            return Err(tags_error(&s, line));
        }
        let ts = to_string(&t);
        let ghost old_tags = tags@;
        tags.push(ts);
        assert(tags@[i as int]@ == t@);
        assert(t@.len() != 0);
        assert forall|k: int| 0 <= k < i + 1 implies (#[trigger] tags@[k])@ == parts[k] && parts[k].len() != 0 by {
            if k < i {
                assert(tags@[k] == old_tags[k]);
            } else {
                assert(tags@[k]@ == t@);
            }
        }
        i = i + 1;
    }
    assert(strings_view(tags@) =~= parts);
    Ok(tags)
}

/// A header directive applied to the metadata read so far.
pub open spec fn header_text(meta: MetaV, t: Seq<char>, line: nat) -> Result<MetaV, ErrInfo> {
    let name = directive_name(t);
    let rest = directive_rest(t);
    if name == "title"@ {
        Ok(MetaV { title: Some(rest), ..meta })
    } else if name == "artist"@ {
        Ok(MetaV { artist: Some(rest), ..meta })
    } else if name == "version"@ {
        Ok(MetaV { version: Some(rest), ..meta })
    } else if name == "tags"@ {
        match tags_text(rest, line) {
            Ok(tags) => Ok(MetaV { tags, ..meta }),
            Err(e) => Err(e),
        }
    } else if name == "sound_manifest"@ {
        if meta.sound_manifest is Some {
            Err(info(ErrorCode::E2004, line, "@sound_manifest specified multiple times"@))
        } else if rest.len() == 0 {
            Err(info(ErrorCode::E2001, line, "missing manifest path"@))
        } else {
            Ok(MetaV { sound_manifest: Some(rest), sound_manifest_line: Some(line as usize), ..meta })
        }
    } else {
        Err(info(ErrorCode::E1006, line, "unknown header directive: @"@ + name))
    }
}

fn message(s: &str) -> (r: String)
    ensures
        r@ == s@,
{
    let mut m = String::new();
    m.append(s);
    m
}

pub fn parse_header_directive(meta: &mut ParsedMeta, t: &Vec<char>, line: usize) -> (r: Result<(), CompileError>)
    ensures
        match (r, header_text(old(meta)@, t@, line as nat)) {
            (Ok(_), Ok(m)) => final(meta)@ == m,
            (Err(e), Err(i)) => e.is(i) && final(meta)@ == old(meta)@,
            _ => false,
        },
{
    let (name, rest) = split_directive(t);
    if eq_chars(&name, &chars_of("title")) {
        meta.title = Some(to_string(&rest));
    } else if eq_chars(&name, &chars_of("artist")) {
        meta.artist = Some(to_string(&rest));
    } else if eq_chars(&name, &chars_of("version")) {
        meta.version = Some(to_string(&rest));
    } else if eq_chars(&name, &chars_of("tags")) {
        let tags = parse_tags_csv(&rest, line)?;
        meta.tags = tags;
    } else if eq_chars(&name, &chars_of("sound_manifest")) {
        if meta.sound_manifest.is_some() {
            return Err(
                CompileError::new(
                    ErrorCode::E2004,
                    message("@sound_manifest specified multiple times"),
                    line,
                ),
            );
        }
        if rest.len() == 0 {
            return Err(CompileError::new(ErrorCode::E2001, message("missing manifest path"), line));
        }
        meta.sound_manifest = Some(to_string(&rest));
        meta.sound_manifest_line = Some(line);
    } else {
        let mut m = String::new();
        m.append("unknown header directive: @");
        push_chars(&mut m, &name);
        return Err(CompileError::new(ErrorCode::E1006, m, line));
    }
    Ok(())
}

/// A track directive: `@bpm` or `@div` with a valid value, `None` for any other name.
/// A tempo must be a plain decimal (see `bpm_text`; anything else is E3003) and
/// a subdivision an integer from 1 to `u32::MAX` (else E3004).
pub open spec fn track_directive_text(t: Seq<char>, line: nat) -> Result<Option<Directive>, ErrInfo> {
    let name = directive_name(t);
    let rest = directive_rest(t);
    if name == "bpm"@ {
        match bpm_text(rest) {
            Some(b) => Ok(Some(Directive::Bpm(b))),
            None => Err(info(ErrorCode::E3003, line, "invalid @bpm"@)),
        }
    } else if name == "div"@ {
        match uint_text(rest) {
            Some(n) => if 1 <= n <= u32::MAX {
                Ok(Some(Directive::Div(n as u32)))
            } else if n == 0 {
                Err(info(ErrorCode::E3004, line, "@div must be >= 1"@))
            } else {
                Err(info(ErrorCode::E3004, line, "invalid @div"@))
            },
            None => Err(info(ErrorCode::E3004, line, "invalid @div"@)),
        }
    } else {
        Ok(None)
    }
}

pub fn parse_track_directive(t: &Vec<char>, line: usize) -> (r: Result<Option<Directive>, CompileError>)
    ensures
        match (r, track_directive_text(t@, line as nat)) {
            (Ok(d), Ok(ds)) => d == ds,
            (Err(e), Err(i)) => e.is(i),
            _ => false,
        },
        r matches Ok(Some(Directive::Bpm(b))) ==> b.wf(),
{
    let (name, rest) = split_directive(t);
    if eq_chars(&name, &chars_of("bpm")) {
        match parse_bpm(&rest) {
            Some(b) => Ok(Some(Directive::Bpm(b))),
            None => Err(CompileError::new(ErrorCode::E3003, message("invalid @bpm"), line)),
        }
    } else if eq_chars(&name, &chars_of("div")) {
        match parse_uint(&rest, 0xFFFF_FFFF) {
            Some(n) => {
                if n < 1 {
                    Err(CompileError::new(ErrorCode::E3004, message("@div must be >= 1"), line))
                } else {
                    Ok(Some(Directive::Div(n as u32)))
                }
            },
            None => Err(CompileError::new(ErrorCode::E3004, message("invalid @div"), line)),
        }
    } else {
        Ok(None)
    }
}

// ---------------------------------------------------------------- whole source

/// The parser's state between lines.
pub struct ParseState {
    pub meta: MetaV,
    pub track: Seq<LineV>,
    pub in_track: bool,
    pub meta_line: usize,
}

pub open spec fn initial_state() -> ParseState {
    ParseState { meta: empty_meta(), track: Seq::empty(), in_track: false, meta_line: 1 }
}

pub open spec fn is_meta_name(n: Seq<char>) -> bool {
    n == "title"@ || n == "artist"@ || n == "version"@ || n == "tags"@ || n == "sound_manifest"@
}

/// One source line (numbered `line`) applied to the state: comments and blank
/// lines are skipped, header directives come before `track: |`, track
/// directives and step lines after it.
pub open spec fn line_text(st: ParseState, raw: Seq<char>, line: nat) -> Result<ParseState, ErrInfo> {
    let t = trim(before_char(raw, '#'));
    if t.len() == 0 {
        Ok(st)
    } else if !st.in_track {
        if t == "track: |"@ {
            Ok(ParseState { in_track: true, meta_line: line as usize, ..st })
        } else if t[0] == '@' {
            match header_text(st.meta, t, line) {
                Ok(m) => Ok(ParseState { meta: m, ..st }),
                Err(e) => Err(e),
            }
        } else {
            Err(info(ErrorCode::E1101, line, "unexpected content before track: |"@))
        }
    } else if t[0] == '@' {
        if is_meta_name(directive_name(t)) {
            Err(info(ErrorCode::E1006, line, "metadata directive not allowed inside track body: @"@ + directive_name(t)))
        } else {
            match track_directive_text(t, line) {
                Ok(Some(d)) => Ok(
                    ParseState {
                        track: st.track.push(LineV::Directive { line: line as usize, directive: d }),
                        ..st
                    },
                ),
                Ok(None) => Err(info(ErrorCode::E1006, line, "unknown directive: "@ + t)),
                Err(e) => Err(e),
            }
        }
    } else {
        match step_text(t, line) {
            Ok(l) => Ok(ParseState { track: st.track.push(l), ..st }),
            Err(e) => Err(e),
        }
    }
}

/// Lines `i..` applied in order; the first failure stops.
pub open spec fn parse_lines_from(lines: Seq<Seq<char>>, i: int, st: ParseState) -> Result<ParseState, ErrInfo>
    decreases lines.len() - i,
{
    if i < 0 || i >= lines.len() {
        Ok(st)
    } else {
        match line_text(st, lines[i], (i + 1) as nat) {
            Ok(s2) => parse_lines_from(lines, i + 1, s2),
            Err(e) => Err(e),
        }
    }
}

/// The parse of a whole source text; a source without `track: |` fails at line 0.
pub open spec fn parse_text(src: Seq<char>) -> Result<ParsedV, ErrInfo> {
    match parse_lines_from(split_on(src, '\n'), 0, initial_state()) {
        Err(e) => Err(e),
        Ok(st) => if !st.in_track {
            Err(info(ErrorCode::E1101, 0, "missing track: |"@))
        } else {
            Ok(ParsedV { meta: st.meta, meta_line: st.meta_line, track: st.track })
        },
    }
}

/// The line up to its first `#`.
pub fn strip_inline_comment(line: &Vec<char>) -> (r: Vec<char>)
    ensures
        r@ == before_char(line@, '#'),
{
    let hash = find_char(line, '#');
    proof {
        lemma_find_from_bounds(line@, '#', 0);
    }
    slice_of(line, 0, hash)
}

pub open spec fn state_of(meta: ParsedMeta, track: Seq<TrackLine>, in_track: bool, meta_line: usize) -> ParseState {
    ParseState { meta: meta@, track: track_view(track), in_track, meta_line }
}

#[verifier::loop_isolation(false)]
pub fn parse_mdfs(src: &str) -> (r: Result<ParsedMdfs, CompileError>)
    ensures
        res_is(r, parse_text(src@)),
        r matches Ok(p) ==> track_wf(p.track@),
{
    let chars = chars_of(src);
    let lines = split_chars(&chars, '\n');
    let ghost ls = split_on(src@, '\n');
    let track_kw = chars_of("track: |");
    let mut meta = ParsedMeta {
        title: None,
        artist: None,
        version: None,
        tags: Vec::new(),
        sound_manifest: None,
        sound_manifest_line: None,
    };
    assert(strings_view(meta.tags@) =~= Seq::<Seq<char>>::empty());
    let mut track: Vec<TrackLine> = Vec::new();
    let mut in_track = false;
    let mut meta_line: usize = 1;
    let mut i: usize = 0;
    assert(track_view(track@) =~= Seq::<LineV>::empty());
    while i < lines.len()
        invariant
            i <= lines.len(),
            chars_views(lines@) == ls,
            parse_lines_from(ls, i as int, state_of(meta, track@, in_track, meta_line))
                == parse_lines_from(ls, 0, initial_state()),
            track_wf(track@),
        decreases lines.len() - i,
    {
        let line_no = i + 1;
        let ghost st = state_of(meta, track@, in_track, meta_line);
        assert(lines@[i as int]@ == ls[i as int]);
        let t = trim_chars(&strip_inline_comment(&lines[i]));
        if t.len() == 0 {
            i = i + 1;
            continue;
        }
        if !in_track {
            if eq_chars(&t, &track_kw) {
                in_track = true;
                meta_line = line_no;
                i = i + 1;
                continue;
            }
            if t[0] == '@' {
                parse_header_directive(&mut meta, &t, line_no)?;
                i = i + 1;
                continue;
            }
            return Err(
                CompileError::new(
                    ErrorCode::E1101,
                    message("unexpected content before track: |"),
                    line_no,
                ),
            );
        }
        if t[0] == '@' {
            let (name, _rest) = split_directive(&t);
            if eq_chars(&name, &chars_of("title")) || eq_chars(&name, &chars_of("artist"))
                || eq_chars(&name, &chars_of("version")) || eq_chars(&name, &chars_of("tags"))
                || eq_chars(&name, &chars_of("sound_manifest")) {
                let mut m = String::new();
                m.append("metadata directive not allowed inside track body: @");
                push_chars(&mut m, &name);
                return Err(CompileError::new(ErrorCode::E1006, m, line_no));
            }
            match parse_track_directive(&t, line_no)? {
                Some(d) => {
                    let tl = TrackLine::Directive { line: line_no, directive: d };
                    let ghost before = track@;
                    track.push(tl);
                    assert(track_view(track@) =~= st.track.push(tl@));
                    assert(track_wf(track@)) by {
                        assert forall|k: int| 0 <= k < track@.len() implies (#[trigger] track@[k]).wf() by {
                            if k < track@.len() - 1 {
                                assert(track@[k] == before[k]);
                            }
                        }
                    }
                    i = i + 1;
                    continue;
                },
                None => {
                    let mut m = String::new();
                    m.append("unknown directive: ");
                    push_chars(&mut m, &t);
                    return Err(CompileError::new(ErrorCode::E1006, m, line_no));
                },
            }
        }
        let step = parse_step_line(&t, line_no)?;
        let ghost sv = step@;
        let ghost before = track@;
        track.push(step);
        assert(track_wf(track@)) by {
            assert forall|k: int| 0 <= k < track@.len() implies (#[trigger] track@[k]).wf() by {
                if k < track@.len() - 1 {
                    assert(track@[k] == before[k]);
                }
            }
        }
        assert(track_view(track@) =~= st.track.push(sv));
        i = i + 1;
    }
    assert(parse_lines_from(ls, i as int, state_of(meta, track@, in_track, meta_line))
        == Ok::<ParseState, ErrInfo>(state_of(meta, track@, in_track, meta_line)));
    if !in_track {
        return Err(CompileError::new(ErrorCode::E1101, message("missing track: |"), 0));
    }
    Ok(ParsedMdfs { meta, meta_line, track })
}

} // verus!
