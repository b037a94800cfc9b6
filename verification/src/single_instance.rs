//! The launch request that a second editor instance hands to the running
//! one, and the NUL-terminated UTF-16 names that the Windows API takes.
use vstd::prelude::*;
use crate::text::{chars_of, opt_string_view, owned};
use crate::decimal::{usize_to_decimal, decimal_text};

verus! {

/// The name of the mutex that marks the running instance.
pub const MUTEX_NAME: &'static str = "Local\\org.spiralpoint.nucleotide.SingleInstance";

/// The name of the pipe that carries launch requests.
pub const PIPE_NAME: &'static str = "\\\\.\\pipe\\org.spiralpoint.nucleotide.open";

/// The size of the pipe's buffers in bytes.
pub const IPC_BUFFER_SIZE: u32 = 65536;

/// The UTF-16 code units of one character.
pub open spec fn utf16_units(c: char) -> Seq<u16> {
    let v = c as int;
    if v < 0x10000 {
        seq![v as u16]
    } else {
        let u = v - 0x10000;
        seq![(0xD800 + u / 0x400) as u16, (0xDC00 + u % 0x400) as u16]
    }
}

/// The UTF-16 encoding of a text, as `str::encode_utf16` yields it.
pub open spec fn encode_utf16(s: Seq<char>) -> Seq<u16>
    decreases s.len(),
{
    if s.len() == 0 {
        seq![]
    } else {
        encode_utf16(s.drop_last()) + utf16_units(s.last())
    }
}

fn push_utf16(out: &mut Vec<u16>, c: char)
    ensures
        final(out)@ == old(out)@ + utf16_units(c),
{
    let v = c as u32;
    proof {
        vstd::utf8::char_is_scalar(c);
    }
    if v < 0x10000 {
        out.push(v as u16);
        assert(out@ =~= old(out)@ + utf16_units(c));
    } else {
        let u = v - 0x10000;
        assert(u < 0x100000);
        out.push((0xD800 + u / 0x400) as u16);
        out.push((0xDC00 + u % 0x400) as u16);
        assert(out@ =~= old(out)@ + utf16_units(c));
    }
}

/// The text as UTF-16 followed by a terminating zero unit.
pub fn wide_nul(value: &str) -> (r: Vec<u16>)
    ensures
        r@ == encode_utf16(value@).push(0),
{
    let chars = chars_of(value);
    let mut out: Vec<u16> = Vec::new();
    let mut i: usize = 0;
    while i < chars.len()
        invariant
            i <= chars.len(),
            out@ == encode_utf16(chars@.subrange(0, i as int)),
        decreases chars.len() - i,
    {
        push_utf16(&mut out, chars[i]);
        proof {
            assert(chars@.subrange(0, i + 1).drop_last() =~= chars@.subrange(0, i as int));
        }
        i = i + 1;
    }
    assert(chars@.subrange(0, chars.len() as int) =~= chars@);
    out.push(0);
    out
}

proof fn lemma_utf16_units_zero(c: char)
    ensures
        utf16_units(c).contains(0u16) ==> c == '\0',
        utf16_units(c).len() >= 1,
{
    vstd::utf8::char_is_scalar(c);
    if utf16_units(c).contains(0u16) {
        let k = choose|k: int| 0 <= k < utf16_units(c).len() && utf16_units(c)[k] == 0u16;
        assert(c as int == 0);
    }
}

proof fn lemma_encode_utf16_no_zero(s: Seq<char>)
    requires
        !s.contains('\0'),
    ensures
        !encode_utf16(s).contains(0u16),
    decreases s.len(),
{
    if s.len() > 0 {
        let t = s.drop_last();
        assert forall|x: char| t.contains(x) implies s.contains(x) by {
            let k = choose|k: int| 0 <= k < t.len() && t[k] == x;
            assert(s[k] == x);
        }
        lemma_encode_utf16_no_zero(t);
        assert(s[s.len() - 1] == s.last());
        lemma_utf16_units_zero(s.last());
        let a = encode_utf16(t);
        let b = utf16_units(s.last());
        assert forall|k: int| 0 <= k < (a + b).len() implies (a + b)[k] != 0u16 by {
            if k < a.len() {
                assert((a + b)[k] == a[k]);
            } else {
                assert((a + b)[k] == b[k - a.len()]);
            }
        }
    }
}

/// A name without NUL characters becomes units that end in the only zero.
pub proof fn lemma_wide_nul_single_terminator(value: Seq<char>)
    requires
        !value.contains('\0'),
    ensures
        encode_utf16(value).push(0).last() == 0,
        forall|k: int|
            0 <= k < encode_utf16(value).push(0).len() && #[trigger] encode_utf16(value).push(0)[k] == 0
                ==> k == encode_utf16(value).len(),
{
    lemma_encode_utf16_no_zero(value);
    let e = encode_utf16(value);
    assert forall|k: int| 0 <= k < e.push(0).len() && #[trigger] e.push(0)[k] == 0 implies k == e.len() by {
        if k < e.len() {
            assert(e.push(0)[k] == e[k]);
            assert(e.contains(0u16));
        }
    }
}

/// A position in a document: row and column.
#[derive(Debug, Clone, Copy, PartialEq, Eq, Default)]
pub struct Position {
    pub row: usize,
    pub col: usize,
}

/// A file to open at a position.
#[derive(Debug, Clone, PartialEq, Eq)]
pub struct ExternalOpenFile {
    pub path: String,
    pub position: Position,
}

impl ExternalOpenFile {
    /// The file at the position.
    pub fn new(path: String, position: Position) -> (r: ExternalOpenFile)
        ensures
            r.path@ == path@,
            r.position == position,
    {
        ExternalOpenFile { path, position }
    }
}

/// What a second instance asks the running editor to do.
#[derive(Debug, Clone, PartialEq, Eq)]
pub struct ExternalOpenRequest {
    pub files: Vec<ExternalOpenFile>,
    pub working_directory: Option<String>,
    pub dock_action: Option<usize>,
}

/// The part of the command line that a launch request carries: each file
/// with the positions asked for it, and the working directory.
#[derive(Debug, Clone, PartialEq, Eq)]
pub struct LaunchArgs {
    pub files: Vec<(String, Vec<Position>)>,
    pub working_directory: Option<String>,
}

/// The files to open for one path: one per position, or the start of the
/// file when no position was given.
pub open spec fn files_for(path: Seq<char>, positions: Seq<Position>) -> Seq<(Seq<char>, Position)> {
    if positions.len() == 0 {
        seq![(path, Position { row: 0, col: 0 })]
    } else {
        positions.map_values(|p: Position| (path, p))
    }
}

/// The files to open for all paths, in order.
pub open spec fn request_files_spec(files: Seq<(String, Vec<Position>)>) -> Seq<(Seq<char>, Position)>
    decreases files.len(),
{
    if files.len() == 0 {
        seq![]
    } else {
        request_files_spec(files.drop_last()) + files_for(files.last().0@, files.last().1@)
    }
}

pub open spec fn open_files_view(files: Seq<ExternalOpenFile>) -> Seq<(Seq<char>, Position)> {
    files.map_values(|f: ExternalOpenFile| (f.path@, f.position))
}

/// The launch request for a command line: every file at every position
/// asked for it (the start of the file when none was), the working
/// directory, and the dock action.
pub fn request_from_args(args: &LaunchArgs, dock_action: Option<usize>) -> (r: ExternalOpenRequest)
    ensures
        open_files_view(r.files@) == request_files_spec(args.files@),
        opt_string_view(r.working_directory) == opt_string_view(args.working_directory),
        r.dock_action == dock_action,
{
    let mut files: Vec<ExternalOpenFile> = Vec::new();
    let mut i: usize = 0;
    assert(open_files_view(files@) =~= request_files_spec(args.files@.subrange(0, 0)));
    while i < args.files.len()
        invariant
            i <= args.files.len(),
            open_files_view(files@) == request_files_spec(args.files@.subrange(0, i as int)),
        decreases args.files.len() - i,
    {
        let path = &args.files[i].0;
        let positions = &args.files[i].1;
        let ghost start = open_files_view(files@);
        if positions.len() == 0 {
            files.push(ExternalOpenFile::new(path.clone(), Position { row: 0, col: 0 }));
            proof {
                assert(open_files_view(files@) =~= start + files_for(path@, positions@));
            }
        } else {
            let mut j: usize = 0;
            while j < positions.len()
                invariant
                    j <= positions.len(),
                    open_files_view(files@) == start + positions@.subrange(0, j as int).map_values(
                        |p: Position| (path@, p),
                    ),
                decreases positions.len() - j,
            {
                let ghost before_push = open_files_view(files@);
                let f = ExternalOpenFile::new(path.clone(), positions[j]);
                files.push(f);
                proof {
                    assert(open_files_view(files@) =~= before_push.push((path@, positions@[j as int])));
                    assert(positions@.subrange(0, j + 1) =~= positions@.subrange(0, j as int).push(positions@[j as int]));
                    assert(open_files_view(files@) =~= start + positions@.subrange(0, j + 1).map_values(
                        |p: Position| (path@, p),
                    ));
                }
                j = j + 1;
            }
            assert(positions@.subrange(0, positions.len() as int) =~= positions@);
        }
        proof {
            assert(args.files@.subrange(0, i + 1).drop_last() =~= args.files@.subrange(0, i as int));
        }
        i = i + 1;
    }
    assert(args.files@.subrange(0, args.files.len() as int) =~= args.files@);
    let working_directory = match &args.working_directory {
        Some(w) => Some(w.clone()),
        None => None,
    };
    ExternalOpenRequest { files, working_directory, dock_action }
}

/// How long a second instance waits for the running one's pipe, in
/// milliseconds.
pub const PIPE_WAIT_MS: u64 = 5000;

/// How long it sleeps between two tries to open the pipe, in milliseconds.
pub const PIPE_RETRY_DELAY_MS: u64 = 25;

/// Whether a second instance that began waiting for the pipe at
/// `started_ms` gives up at `now_ms` (both read from one monotonic clock).
pub fn pipe_wait_over(started_ms: u64, now_ms: u64) -> (r: bool)
    ensures
        r == (now_ms as int >= started_ms as int + PIPE_WAIT_MS as int),
{
    now_ms >= started_ms && now_ms - started_ms >= PIPE_WAIT_MS
}

/// Why a launch request did not reach the running instance.
#[derive(Debug, Clone, PartialEq, Eq)]
pub enum ForwardError {
    /// The pipe refused the write; the system's description of why.
    Write(String),
    /// The pipe took fewer bytes than the request has.
    Incomplete { written: u32, expected: usize },
}

/// What a write of a `payload_len`-byte request into the pipe comes to: the
/// system's error, or the number of bytes that the pipe took, which must be
/// all of them.
pub open spec fn write_outcome_spec(write: Result<u32, String>, payload_len: usize) -> Result<
    (),
    ForwardError,
> {
    match write {
        Err(e) => Err(ForwardError::Write(e)),
        Ok(written) => if written as int == payload_len as int {
            Ok(())
        } else {
            Err(ForwardError::Incomplete { written, expected: payload_len })
        },
    }
}

/// Checks the outcome of writing a launch request into the pipe.
pub fn write_outcome(write: Result<u32, String>, payload_len: usize) -> (r: Result<(), ForwardError>)
    ensures
        r == write_outcome_spec(write, payload_len),
{
    match write {
        Err(e) => Err(ForwardError::Write(e)),
        Ok(written) => if written as usize == payload_len {
            Ok(())
        } else {
            Err(ForwardError::Incomplete { written, expected: payload_len })
        },
    }
}

impl ForwardError {
    /// The error as the launcher reports it: the context line, then, for a
    /// refused write, the system's description after a colon.
    pub fn message(&self) -> (r: String)
        ensures
            r@ == match self {
                ForwardError::Write(e) => "failed to write launch request: "@ + e@,
                ForwardError::Incomplete { written, expected } => "wrote incomplete launch request: "@
                    + decimal_text(*written as nat) + " of "@ + decimal_text(*expected as nat)
                    + " bytes"@,
            },
    {
        match self {
            ForwardError::Write(e) => {
                let mut s = owned("failed to write launch request: ");
                s.append(e.as_str());
                s
            },
            ForwardError::Incomplete { written, expected } => {
                let mut s = owned("wrote incomplete launch request: ");
                let w = usize_to_decimal(*written as usize);
                s.append(w.as_str());
                s.append(" of ");
                let n = usize_to_decimal(*expected);
                s.append(n.as_str());
                s.append(" bytes");
                s
            },
        }
    }
}

} // verus!
