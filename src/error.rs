use vstd::prelude::*;

use crate::text::{push_decimal, decimal};

verus! {

/// The stable diagnostic codes of the compiler.
#[derive(Debug, Clone, Copy, PartialEq, Eq, Structural)]
pub enum ErrorCode {
    E1001,
    E1002,
    E1003,
    E1004,
    E1005,
    E1006,
    E1101,
    E2001,
    E2002,
    E2003,
    E2004,
    E2101,
    E3001,
    E3002,
    E3003,
    E3004,
    E3005,
    E3201,
    E3202,
    E3203,
    E3204,
    E4001,
    E4002,
    E4003,
    E4004,
    E4101,
    E4102,
    E4201,
}

/// Coarse classification of a diagnostic code.
#[derive(Debug, Clone, Copy, PartialEq, Eq, Structural)]
pub enum CompileErrorKind {
    Parse,
    Semantic,
    IO,
    TimeMap,
    Validation,
}

pub open spec fn kind_of(code: ErrorCode) -> CompileErrorKind {
    match code {
        ErrorCode::E1001 | ErrorCode::E1002 | ErrorCode::E1003 | ErrorCode::E1004
        | ErrorCode::E1005 | ErrorCode::E1006 | ErrorCode::E1101 | ErrorCode::E3201
        | ErrorCode::E3202 | ErrorCode::E3203 | ErrorCode::E3204 => CompileErrorKind::Parse,
        ErrorCode::E2001 | ErrorCode::E2002 | ErrorCode::E2003 | ErrorCode::E2004 => {
            CompileErrorKind::IO
        },
        ErrorCode::E2101 | ErrorCode::E4201 => CompileErrorKind::Semantic,
        ErrorCode::E3001 | ErrorCode::E3002 | ErrorCode::E3003 | ErrorCode::E3004
        | ErrorCode::E3005 => CompileErrorKind::TimeMap,
        ErrorCode::E4001 | ErrorCode::E4002 | ErrorCode::E4003 | ErrorCode::E4004
        | ErrorCode::E4101 | ErrorCode::E4102 => CompileErrorKind::Validation,
    }
}

pub open spec fn code_text(code: ErrorCode) -> Seq<char> {
    match code {
        ErrorCode::E1001 => "E1001"@,
        ErrorCode::E1002 => "E1002"@,
        ErrorCode::E1003 => "E1003"@,
        ErrorCode::E1004 => "E1004"@,
        ErrorCode::E1005 => "E1005"@,
        ErrorCode::E1006 => "E1006"@,
        ErrorCode::E1101 => "E1101"@,
        ErrorCode::E2001 => "E2001"@,
        ErrorCode::E2002 => "E2002"@,
        ErrorCode::E2003 => "E2003"@,
        ErrorCode::E2004 => "E2004"@,
        ErrorCode::E2101 => "E2101"@,
        ErrorCode::E3001 => "E3001"@,
        ErrorCode::E3002 => "E3002"@,
        ErrorCode::E3003 => "E3003"@,
        ErrorCode::E3004 => "E3004"@,
        ErrorCode::E3005 => "E3005"@,
        ErrorCode::E3201 => "E3201"@,
        ErrorCode::E3202 => "E3202"@,
        ErrorCode::E3203 => "E3203"@,
        ErrorCode::E3204 => "E3204"@,
        ErrorCode::E4001 => "E4001"@,
        ErrorCode::E4002 => "E4002"@,
        ErrorCode::E4003 => "E4003"@,
        ErrorCode::E4004 => "E4004"@,
        ErrorCode::E4101 => "E4101"@,
        ErrorCode::E4102 => "E4102"@,
        ErrorCode::E4201 => "E4201"@,
    }
}

impl ErrorCode {
    pub fn as_str(&self) -> (r: &'static str)
        ensures
            r@ == code_text(*self),
    {
        match self {
            ErrorCode::E1001 => "E1001",
            ErrorCode::E1002 => "E1002",
            ErrorCode::E1003 => "E1003",
            ErrorCode::E1004 => "E1004",
            ErrorCode::E1005 => "E1005",
            ErrorCode::E1006 => "E1006",
            ErrorCode::E1101 => "E1101",
            ErrorCode::E2001 => "E2001",
            ErrorCode::E2002 => "E2002",
            ErrorCode::E2003 => "E2003",
            ErrorCode::E2004 => "E2004",
            ErrorCode::E2101 => "E2101",
            ErrorCode::E3001 => "E3001",
            ErrorCode::E3002 => "E3002",
            ErrorCode::E3003 => "E3003",
            ErrorCode::E3004 => "E3004",
            ErrorCode::E3005 => "E3005",
            ErrorCode::E3201 => "E3201",
            ErrorCode::E3202 => "E3202",
            ErrorCode::E3203 => "E3203",
            ErrorCode::E3204 => "E3204",
            ErrorCode::E4001 => "E4001",
            ErrorCode::E4002 => "E4002",
            ErrorCode::E4003 => "E4003",
            ErrorCode::E4004 => "E4004",
            ErrorCode::E4101 => "E4101",
            ErrorCode::E4102 => "E4102",
            ErrorCode::E4201 => "E4201",
        }
    }
}

impl CompileErrorKind {
    pub fn from_code(code: ErrorCode) -> (r: Self)
        ensures
            r == kind_of(code),
    {
        match code {
            ErrorCode::E1001 | ErrorCode::E1002 | ErrorCode::E1003 | ErrorCode::E1004
            | ErrorCode::E1005 | ErrorCode::E1006 | ErrorCode::E1101 | ErrorCode::E3201
            | ErrorCode::E3202 | ErrorCode::E3203 | ErrorCode::E3204 => CompileErrorKind::Parse,
            ErrorCode::E2001 | ErrorCode::E2002 | ErrorCode::E2003 | ErrorCode::E2004 => {
                CompileErrorKind::IO
            },
            ErrorCode::E2101 | ErrorCode::E4201 => CompileErrorKind::Semantic,
            ErrorCode::E3001 | ErrorCode::E3002 | ErrorCode::E3003 | ErrorCode::E3004
            | ErrorCode::E3005 => CompileErrorKind::TimeMap,
            ErrorCode::E4001 | ErrorCode::E4002 | ErrorCode::E4003 | ErrorCode::E4004
            | ErrorCode::E4101 | ErrorCode::E4102 => CompileErrorKind::Validation,
        }
    }
}

/// A compile failure: the code, its kind, a human message, the 1-based line,
/// and the structured fields that apply.
#[derive(Debug, Clone)]
pub struct CompileError {
    pub code: &'static str,
    pub kind: CompileErrorKind,
    pub message: String,
    pub line: usize,
    pub file: Option<String>,
    pub column: Option<usize>,
    pub step_index: Option<usize>,
    pub lane: Option<u8>,
    pub time_us: Option<u64>,
    pub context: Option<String>,
}

/// What a failure is: its code, line, human message and structured fields.
pub struct ErrInfo {
    pub code: ErrorCode,
    pub line: nat,
    pub message: Seq<char>,
    pub file: Option<Seq<char>>,
    pub step_index: Option<usize>,
    pub lane: Option<u8>,
    pub time_us: Option<u64>,
    pub context: Option<Seq<char>>,
}

pub open spec fn opt_view(o: Option<String>) -> Option<Seq<char>> {
    match o {
        Some(s) => Some(s@),
        None => None,
    }
}

/// A failure with code, line and message set, and no structured field.
pub open spec fn info(code: ErrorCode, line: nat, message: Seq<char>) -> ErrInfo {
    ErrInfo {
        code,
        line,
        message,
        file: None,
        step_index: None,
        lane: None,
        time_us: None,
        context: None,
    }
}

/// `what (context=<ctx>)`.
pub open spec fn ctx_msg(what: Seq<char>, ctx: Seq<char>) -> Seq<char> {
    what + " (context="@ + ctx + ")"@
}

/// `what (lane=<lane>, context=<ctx>)`.
pub open spec fn lane_ctx_msg(what: Seq<char>, lane: nat, ctx: Seq<char>) -> Seq<char> {
    what + " (lane="@ + decimal(lane) + ", context="@ + ctx + ")"@
}

impl ErrInfo {
    pub open spec fn lane(self, lane: u8) -> ErrInfo {
        ErrInfo { lane: Some(lane), ..self }
    }

    pub open spec fn step(self, step_index: usize) -> ErrInfo {
        ErrInfo { step_index: Some(step_index), ..self }
    }

    pub open spec fn time(self, time_us: u64) -> ErrInfo {
        ErrInfo { time_us: Some(time_us), ..self }
    }

    pub open spec fn ctx(self, context: Seq<char>) -> ErrInfo {
        ErrInfo { context: Some(context), ..self }
    }

    pub open spec fn in_file(self, file: Seq<char>) -> ErrInfo {
        ErrInfo { file: Some(file), ..self }
    }
}

impl CompileError {
    /// Whether this error is the failure `i` (code, kind, line, message and structured fields).
    pub open spec fn is(&self, i: ErrInfo) -> bool {
        &&& self.code@ == code_text(i.code)
        &&& self.kind == kind_of(i.code)
        &&& self.line == i.line
        &&& self.message@ == i.message
        &&& opt_view(self.file) == i.file
        &&& self.step_index == i.step_index
        &&& self.lane == i.lane
        &&& self.time_us == i.time_us
        &&& opt_view(self.context) == i.context
        &&& self.column.is_none()
    }

    pub fn new(code: ErrorCode, message: String, line: usize) -> (r: Self)
        ensures
            r.is(info(code, line as nat, message@)),
    {
        CompileError {
            code: code.as_str(),
            kind: CompileErrorKind::from_code(code),
            message,
            line,
            file: None,
            column: None,
            step_index: None,
            lane: None,
            time_us: None,
            context: None,
        }
    }

    pub fn with_file(self, file: String) -> (r: Self)
        ensures
            r == (CompileError { file: Some(file), ..self }),
    {
        CompileError { file: Some(file), ..self }
    }

    pub fn with_column(self, column: usize) -> (r: Self)
        ensures
            r == (CompileError { column: Some(column), ..self }),
    {
        CompileError { column: Some(column), ..self }
    }

    pub fn with_step_index(self, step_index: usize) -> (r: Self)
        ensures
            r == (CompileError { step_index: Some(step_index), ..self }),
    {
        CompileError { step_index: Some(step_index), ..self }
    }

    pub fn with_lane(self, lane: u8) -> (r: Self)
        ensures
            r == (CompileError { lane: Some(lane), ..self }),
    {
        CompileError { lane: Some(lane), ..self }
    }

    pub fn with_time_us(self, time_us: u64) -> (r: Self)
        ensures
            r == (CompileError { time_us: Some(time_us), ..self }),
    {
        CompileError { time_us: Some(time_us), ..self }
    }

    pub fn with_context(self, context: String) -> (r: Self)
        ensures
            r == (CompileError { context: Some(context), ..self }),
    {
        CompileError { context: Some(context), ..self }
    }

    /// The display form `"<code>: <message> (line <line>)"`.
    pub fn to_display_string(&self) -> (r: String)
        ensures
            r@ == self.code@ + ": "@ + self.message@ + " (line "@ + decimal(self.line as nat)
                + ")"@,
    {
        let mut s = String::new();
        s.append(self.code);
        s.append(": ");
        s.append(self.message.as_str());
        s.append(" (line ");
        push_decimal(&mut s, self.line as u64);
        s.append(")");
        s
    }
}

} // verus!
