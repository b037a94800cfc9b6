//! What the user interface knows of the language servers: the servers and
//! their status, the progress operations they report, the diagnostics of
//! each file, and the indicator that the status line shows.
use vstd::prelude::*;
use crate::decimal::{decimal_text, usize_to_decimal};
use crate::sequences::{keep_where, lemma_keep_where};
use crate::text::{append_chars, chars_of, owned, str_equal, string_of};

verus! {

/// How long, in milliseconds, a spinner frame stays before the next one.
pub const SPINNER_INTERVAL_MS: u64 = 80;

/// How many frames the spinner has.
pub const SPINNER_FRAME_COUNT: usize = 8;

/// The longest progress message, in characters, that the indicator shows whole.
pub const MAX_MESSAGE_LEN: usize = 40;

/// The text of each spinner frame.
pub open spec fn spinner_frame_text(i: int) -> Seq<char> {
    if i == 0 {
        "⣾"@
    } else if i == 1 {
        "⣽"@
    } else if i == 2 {
        "⣻"@
    } else if i == 3 {
        "⢿"@
    } else if i == 4 {
        "⡿"@
    } else if i == 5 {
        "⣟"@
    } else if i == 6 {
        "⣯"@
    } else {
        "⣷"@
    }
}

/// The spinner frame with the given number (below the frame count).
pub fn spinner_frame(i: usize) -> (r: &'static str)
    requires
        i < SPINNER_FRAME_COUNT,
    ensures
        r@ == spinner_frame_text(i as int),
{
    match i {
        0 => "⣾",
        1 => "⣽",
        2 => "⣻",
        3 => "⢿",
        4 => "⡿",
        5 => "⣟",
        6 => "⣯",
        _ => "⣷",
    }
}

/// Identifies a language server.
#[derive(Clone, Copy, Debug, PartialEq, Eq, Structural)]
pub struct LanguageServerId(pub u64);

/// Status of a language server.
#[derive(Clone, Debug)]
pub enum ServerStatus {
    Starting,
    Initializing,
    Running,
    Failed(String),
    Stopped,
}

/// One progress operation of a language server.
#[derive(Clone, Debug)]
pub struct LspProgress {
    pub server_id: LanguageServerId,
    pub token: String,
    pub title: String,
    pub message: Option<String>,
    pub percentage: Option<u32>,
}

/// A language server as the interface knows it.
#[derive(Clone, Debug)]
pub struct ServerInfo {
    pub id: LanguageServerId,
    pub name: String,
    pub status: ServerStatus,
    pub root_uri: Option<String>,
    pub capabilities: Option<serde_json::Value>,
}

/// A diagnostic with the server that reported it.
#[derive(Clone, Debug)]
pub struct DiagnosticInfo<D> {
    pub diagnostic: D,
    pub server_id: LanguageServerId,
}

#[verifier::external_type_specification]
#[verifier::external_body]
pub struct ExJsonValue(serde_json::Value);

/// Whether no two servers share an id.
pub open spec fn servers_unique(s: Seq<ServerInfo>) -> bool {
    forall|i: int, j: int| 0 <= i < j < s.len() ==> s[i].id != s[j].id
}

/// Whether no two progress operations share a server and a token.
pub open spec fn progress_unique(s: Seq<LspProgress>) -> bool {
    forall|i: int, j: int|
        0 <= i < j < s.len() ==> !(s[i].server_id == s[j].server_id && s[i].token@ == s[j].token@)
}

/// Whether no two files share an entry and no file has an empty list.
pub open spec fn diagnostics_well_formed<D>(s: Seq<(Seq<char>, Seq<DiagnosticInfo<D>>)>) -> bool {
    &&& forall|i: int, j: int| 0 <= i < j < s.len() ==> s[i].0 != s[j].0
    &&& forall|i: int| 0 <= i < s.len() ==> s[i].1.len() > 0
}

/// The diagnostics of each file, as texts and sequences.
pub open spec fn diagnostics_view<D>(s: Seq<(String, Vec<DiagnosticInfo<D>>)>) -> Seq<(Seq<char>, Seq<DiagnosticInfo<D>>)> {
    s.map_values(|p: (String, Vec<DiagnosticInfo<D>>)| (p.0@, p.1@))
}

/// Where the server with the given id stands, or -1.
pub open spec fn server_slot(s: Seq<ServerInfo>, id: LanguageServerId) -> int {
    if exists|i: int| 0 <= i < s.len() && s[i].id == id {
        choose|i: int| 0 <= i < s.len() && s[i].id == id
    } else {
        -1
    }
}

/// Where the progress operation with the given server and token stands, or -1.
pub open spec fn progress_slot(s: Seq<LspProgress>, id: LanguageServerId, token: Seq<char>) -> int {
    if exists|i: int| 0 <= i < s.len() && s[i].server_id == id && s[i].token@ == token {
        choose|i: int| 0 <= i < s.len() && s[i].server_id == id && s[i].token@ == token
    } else {
        -1
    }
}

/// Where the diagnostics of the given file stand, or -1.
pub open spec fn diagnostics_slot<D>(s: Seq<(Seq<char>, Seq<DiagnosticInfo<D>>)>, uri: Seq<char>) -> int {
    if exists|i: int| 0 <= i < s.len() && s[i].0 == uri {
        choose|i: int| 0 <= i < s.len() && s[i].0 == uri
    } else {
        -1
    }
}


/// Whether a progress operation belongs to another server than `id`.
pub open spec fn progress_of_other(id: LanguageServerId) -> spec_fn(LspProgress) -> bool {
    |p: LspProgress| p.server_id != id
}

/// Whether a diagnostic comes from another server than `id`.
pub open spec fn diagnostic_of_other<D>(id: LanguageServerId) -> spec_fn(DiagnosticInfo<D>) -> bool {
    |d: DiagnosticInfo<D>| d.server_id != id
}

/// The diagnostics of each file without those of server `id`, leaving out
/// the files that have none left.
pub open spec fn files_without<D>(s: Seq<(Seq<char>, Seq<DiagnosticInfo<D>>)>, id: LanguageServerId) -> Seq<(Seq<char>, Seq<DiagnosticInfo<D>>)>
    decreases s.len(),
{
    if s.len() == 0 {
        s
    } else {
        let kept = keep_where(s[0].1, diagnostic_of_other::<D>(id));
        let rest = files_without(s.drop_first(), id);
        if kept.len() > 0 {
            seq![(s[0].0, kept)] + rest
        } else {
            rest
        }
    }
}

proof fn lemma_files_without<D>(s: Seq<(Seq<char>, Seq<DiagnosticInfo<D>>)>, id: LanguageServerId)
    ensures
        forall|k: int| #![trigger files_without(s, id)[k]] 0 <= k < files_without(s, id).len() ==> exists|j: int| #![trigger s[j]] 0 <= j < s.len() && files_without(s, id)[k].0 == s[j].0,
        forall|k: int| 0 <= k < files_without(s, id).len() ==> (#[trigger] files_without(s, id)[k]).1.len() > 0,
        forall|k: int, m: int| #![trigger files_without(s, id)[k].1[m]] 0 <= k < files_without(s, id).len() && 0 <= m < files_without(s, id)[k].1.len()
            ==> files_without(s, id)[k].1[m].server_id != id,
        diagnostics_well_formed(s) ==> diagnostics_well_formed(files_without(s, id)),
    decreases s.len(),
{
    if s.len() > 0 {
        let t = s.drop_first();
        lemma_files_without(t, id);
        lemma_keep_where(s[0].1, diagnostic_of_other::<D>(id), |d: DiagnosticInfo<D>| d.server_id);
        let rest = files_without(t, id);
        let kept = keep_where(s[0].1, diagnostic_of_other::<D>(id));
        assert forall|k: int| #![trigger rest[k]] 0 <= k < rest.len() implies exists|j: int| #![trigger s[j]] 1 <= j < s.len() && rest[k].0 == s[j].0 by {
            let j = choose|j: int| 0 <= j < t.len() && rest[k].0 == t[j].0;
            assert(rest[k].0 == s[j + 1].0);
        }
        if kept.len() > 0 {
            let r = seq![(s[0].0, kept)] + rest;
            assert forall|k: int| #![trigger r[k]] 0 <= k < r.len() implies exists|j: int| #![trigger s[j]] 0 <= j < s.len() && r[k].0 == s[j].0 by {
                if k == 0 {
                    assert(r[k].0 == s[0].0);
                } else {
                    assert(r[k] == rest[k - 1]);
                }
            }
            assert forall|k: int| 0 <= k < r.len() implies (#[trigger] r[k]).1.len() > 0 by {
                if k > 0 {
                    assert(r[k] == rest[k - 1]);
                }
            }
            assert forall|k: int, m: int| #![trigger r[k].1[m]] 0 <= k < r.len() && 0 <= m < r[k].1.len() implies r[k].1[m].server_id != id by {
                if k == 0 {
                    assert(diagnostic_of_other::<D>(id)(kept[m]));
                } else {
                    assert(r[k] == rest[k - 1]);
                }
            }
            if diagnostics_well_formed(s) {
                assert forall|i: int, j: int| #![trigger r[i], r[j]] 0 <= i < j < r.len() implies r[i].0 != r[j].0 by {
                    if i == 0 {
                        let jj = choose|jj: int| 1 <= jj < s.len() && rest[j - 1].0 == s[jj].0;
                        assert(r[j].0 == s[jj].0);
                    } else {
                        assert(r[i] == rest[i - 1] && r[j] == rest[j - 1]);
                    }
                }
            }
        }
    }
}


fn progress_without_server(v: Vec<LspProgress>, id: LanguageServerId) -> (r: Vec<LspProgress>)
    ensures
        r@ == keep_where(v@, progress_of_other(id)),
{
    let ghost orig = v@;
    let mut rest = v;
    let mut out: Vec<LspProgress> = Vec::new();
    while rest.len() > 0
        invariant
            out@ + keep_where(rest@, progress_of_other(id)) == keep_where(orig, progress_of_other(id)),
        decreases rest.len(),
    {
        let ghost before = rest@;
        let p = rest.remove(0);
        assert(rest@ =~= before.drop_first());
        if p.server_id.0 != id.0 {
            assert(out@.push(p) + keep_where(rest@, progress_of_other(id)) =~= out@ + (seq![p] + keep_where(rest@, progress_of_other(id))));
            out.push(p);
        }
    }
    assert(out@ + keep_where(rest@, progress_of_other(id)) =~= out@);
    out
}

fn diagnostics_without_server<D>(v: Vec<DiagnosticInfo<D>>, id: LanguageServerId) -> (r: Vec<DiagnosticInfo<D>>)
    ensures
        r@ == keep_where(v@, diagnostic_of_other::<D>(id)),
{
    let ghost orig = v@;
    let mut rest = v;
    let mut out: Vec<DiagnosticInfo<D>> = Vec::new();
    while rest.len() > 0
        invariant
            out@ + keep_where(rest@, diagnostic_of_other::<D>(id)) == keep_where(orig, diagnostic_of_other::<D>(id)),
        decreases rest.len(),
    {
        let ghost before = rest@;
        let d = rest.remove(0);
        assert(rest@ =~= before.drop_first());
        if d.server_id.0 != id.0 {
            assert(out@.push(d) + keep_where(rest@, diagnostic_of_other::<D>(id)) =~= out@ + (seq![d] + keep_where(rest@, diagnostic_of_other::<D>(id))));
            out.push(d);
        }
    }
    assert(out@ + keep_where(rest@, diagnostic_of_other::<D>(id)) =~= out@);
    out
}

fn files_without_server<D>(v: Vec<(String, Vec<DiagnosticInfo<D>>)>, id: LanguageServerId) -> (r: Vec<(String, Vec<DiagnosticInfo<D>>)>)
    ensures
        diagnostics_view(r@) == files_without(diagnostics_view(v@), id),
{
    let ghost orig = v@;
    let mut rest = v;
    let mut out: Vec<(String, Vec<DiagnosticInfo<D>>)> = Vec::new();
    while rest.len() > 0
        invariant
            diagnostics_view(out@) + files_without(diagnostics_view(rest@), id) == files_without(diagnostics_view(orig), id),
        decreases rest.len(),
    {
        let ghost before = rest@;
        let (uri, list) = rest.remove(0);
        assert(diagnostics_view(rest@) =~= diagnostics_view(before).drop_first());
        assert(diagnostics_view(before)[0] == (uri@, list@));
        let kept = diagnostics_without_server(list, id);
        if kept.len() > 0 {
            let ghost tail = files_without(diagnostics_view(rest@), id);
            out.push((uri, kept));
            assert(diagnostics_view(out@) =~= diagnostics_view(out@.drop_last()).push((uri@, kept@)));
            assert(diagnostics_view(out@) + tail =~= diagnostics_view(out@.drop_last()) + (seq![(uri@, kept@)] + tail));
        }
    }
    assert(diagnostics_view(out@) + files_without(diagnostics_view(rest@), id) =~= diagnostics_view(out@));
    out
}


fn find_progress(s: &Vec<LspProgress>, id: LanguageServerId, token: &str) -> (r: Option<usize>)
    requires
        progress_unique(s@),
    ensures
        match r {
            Some(i) => i == progress_slot(s@, id, token@) && 0 <= i < s@.len(),
            None => progress_slot(s@, id, token@) == -1,
        },
{
    let mut i: usize = 0;
    while i < s.len()
        invariant
            i <= s.len(),
            progress_unique(s@),
            forall|k: int| 0 <= k < i ==> !(s@[k].server_id == id && s@[k].token@ == token@),
        decreases s.len() - i,
    {
        if s[i].server_id.0 == id.0 && str_equal(s[i].token.as_str(), token) {
            assert(s@[i as int].server_id == id && s@[i as int].token@ == token@);
            proof {
                let j = choose|j: int| 0 <= j < s@.len() && s@[j].server_id == id && s@[j].token@ == token@;
                assert(0 <= j < s@.len() && s@[j].server_id == id && s@[j].token@ == token@);
                if j > i {
                    assert(!(s@[i as int].server_id == s@[j].server_id && s@[i as int].token@ == s@[j].token@));
                }
            }
            return Some(i);
        }
        i = i + 1;
    }
    None
}

fn find_file<D>(s: &Vec<(String, Vec<DiagnosticInfo<D>>)>, uri: &str) -> (r: Option<usize>)
    requires
        diagnostics_well_formed(diagnostics_view(s@)),
    ensures
        match r {
            Some(i) => i == diagnostics_slot(diagnostics_view(s@), uri@) && 0 <= i < s@.len(),
            None => diagnostics_slot(diagnostics_view(s@), uri@) == -1,
        },
{
    let ghost v = diagnostics_view(s@);
    let mut i: usize = 0;
    while i < s.len()
        invariant
            i <= s.len(),
            v == diagnostics_view(s@),
            diagnostics_well_formed(v),
            forall|k: int| 0 <= k < i ==> v[k].0 != uri@,
        decreases s.len() - i,
    {
        if str_equal(s[i].0.as_str(), uri) {
            assert(v[i as int].0 == uri@);
            proof {
                let j = choose|j: int| 0 <= j < v.len() && v[j].0 == uri@;
                assert(0 <= j < v.len() && v[j].0 == uri@);
                if j > i {
                    assert(v[i as int].0 != v[j].0);
                }
            }
            return Some(i);
        }
        assert(v[i as int].0 == s@[i as int].0@);
        i = i + 1;
    }
    None
}


/// How many servers are running.
pub open spec fn running_count(s: Seq<ServerInfo>) -> nat
    decreases s.len(),
{
    if s.len() == 0 {
        0
    } else {
        (if s[0].status is Running { 1nat } else { 0nat }) + running_count(s.drop_first())
    }
}

/// Whether some server is starting or initializing.
pub open spec fn has_busy_server(s: Seq<ServerInfo>) -> bool {
    exists|i: int| 0 <= i < s.len() && (s[i].status is Starting || s[i].status is Initializing)
}

/// How a progress operation reads: its title, then its message after a
/// colon, then its percentage in brackets.
pub open spec fn progress_text(p: LspProgress) -> Seq<char> {
    p.title@ + (match p.message {
        Some(m) => ": "@ + m@,
        None => Seq::empty(),
    }) + (match p.percentage {
        Some(n) => " ("@ + decimal_text(n as nat) + "%)"@,
        None => Seq::empty(),
    })
}

/// The texts of the progress operations, separated by commas.
pub open spec fn joined_progress(s: Seq<LspProgress>) -> Seq<char>
    decreases s.len(),
{
    if s.len() == 0 {
        Seq::empty()
    } else if s.len() == 1 {
        progress_text(s[0])
    } else {
        joined_progress(s.drop_last()) + ", "@ + progress_text(s.last())
    }
}

/// A message cut to the longest length, in characters, that the indicator
/// shows: one longer than that keeps its first characters, three fewer than
/// the longest length, followed by three dots.
pub open spec fn shortened(m: Seq<char>) -> Seq<char> {
    if m.len() > MAX_MESSAGE_LEN {
        m.subrange(0, MAX_MESSAGE_LEN - 3) + "..."@
    } else {
        m
    }
}

/// The status line's summary of the language servers' activity.
pub open spec fn status_string_spec<D>(s: LspStateView<D>) -> Option<Seq<char>> {
    match s.status_message {
        Some(m) => Some(m@),
        None => if s.progress.len() > 0 { Some(joined_progress(s.progress)) } else { None },
    }
}

/// Whether the spinner shows: some progress runs or some server starts.
pub open spec fn shows_spinner<D>(s: LspStateView<D>) -> bool {
    s.progress.len() > 0 || has_busy_server(s.servers)
}

/// The state after the spinner is asked for its frame at `now_ms`.
pub open spec fn spinner_advanced<D>(o: LspStateView<D>, now_ms: u64) -> LspStateView<D> {
    let elapsed = if now_ms >= o.last_spinner_update_ms { now_ms - o.last_spinner_update_ms } else { 0 };
    if elapsed >= SPINNER_INTERVAL_MS {
        LspStateView {
            spinner_frame: ((o.spinner_frame + 1) % (SPINNER_FRAME_COUNT as int)) as usize,
            last_spinner_update_ms: now_ms,
            ..o
        }
    } else {
        o
    }
}

/// The state after the indicator is asked for at `now_ms`: the spinner moves
/// only while it shows.
pub open spec fn indicator_state<D>(o: LspStateView<D>, now_ms: u64) -> LspStateView<D> {
    if o.servers.len() > 0 && shows_spinner(o) {
        spinner_advanced(o, now_ms)
    } else {
        o
    }
}

/// The indicator of the status line: nothing without servers; otherwise the
/// spinner frame while there is activity, a dot when idle, and the most
/// recently started progress operation's text, shortened, after a space.
pub open spec fn indicator_spec<D>(o: LspStateView<D>, now_ms: u64) -> Option<Seq<char>> {
    if o.servers.len() == 0 {
        None
    } else {
        let n = indicator_state(o, now_ms);
        let mark = if shows_spinner(o) { spinner_frame_text(n.spinner_frame as int) } else { "◉"@ };
        if o.progress.len() > 0 {
            Some(mark + " "@ + shortened(progress_text(o.progress.last())))
        } else {
            Some(mark)
        }
    }
}

fn progress_chars(p: &LspProgress) -> (r: Vec<char>)
    ensures
        r@ == progress_text(*p),
{
    let mut out = chars_of(p.title.as_str());
    match &p.message {
        Some(m) => {
            let sep = chars_of(": ");
            append_chars(&mut out, sep.as_slice());
            let mc = chars_of(m.as_str());
            append_chars(&mut out, mc.as_slice());
            assert(out@ =~= p.title@ + (": "@ + m@));
        },
        None => {
            assert(out@ =~= p.title@ + Seq::<char>::empty());
        },
    }
    let ghost mid = out@;
    match p.percentage {
        Some(n) => {
            let open = chars_of(" (");
            append_chars(&mut out, open.as_slice());
            let digits = usize_to_decimal(n as usize);
            let dc = chars_of(digits.as_str());
            append_chars(&mut out, dc.as_slice());
            let close = chars_of("%)");
            append_chars(&mut out, close.as_slice());
            assert(out@ =~= mid + (" ("@ + decimal_text(n as nat) + "%)"@));
        },
        None => {
            assert(out@ =~= mid + Seq::<char>::empty());
        },
    }
    out
}

fn shorten(m: Vec<char>) -> (r: Vec<char>)
    ensures
        r@ == shortened(m@),
{
    if m.len() > MAX_MESSAGE_LEN {
        let mut out: Vec<char> = Vec::new();
        let mut i: usize = 0;
        while i < MAX_MESSAGE_LEN - 3
            invariant
                i <= MAX_MESSAGE_LEN - 3,
                m@.len() > MAX_MESSAGE_LEN,
                out@ == m@.subrange(0, i as int),
            decreases MAX_MESSAGE_LEN - 3 - i,
        {
            out.push(m[i]);
            i = i + 1;
            assert(out@ =~= m@.subrange(0, i as int));
        }
        let dots = chars_of("...");
        append_chars(&mut out, dots.as_slice());
        out
    } else {
        m
    }
}

/// The diagnostics after those of file `uri` are set to `d`: an empty list
/// forgets the file, another replaces its entry or comes last.
pub open spec fn diagnostics_after_set<D>(o: Seq<(Seq<char>, Seq<DiagnosticInfo<D>>)>, uri: Seq<char>, d: Seq<DiagnosticInfo<D>>) -> Seq<(Seq<char>, Seq<DiagnosticInfo<D>>)> {
    let slot = diagnostics_slot(o, uri);
    if d.len() == 0 {
        if slot >= 0 { o.remove(slot) } else { o }
    } else if slot >= 0 {
        o.update(slot, (uri, d))
    } else {
        o.push((uri, d))
    }
}

/// A running server that the editor reports and that was not known yet.
pub open spec fn running_info(id: LanguageServerId, name: String) -> ServerInfo {
    ServerInfo { id, name, status: ServerStatus::Running, root_uri: None, capabilities: None }
}

/// The servers after the editor's active servers are taken in: each active
/// server that is not known yet is added as running, in order.
pub open spec fn servers_after_sync(servers: Seq<ServerInfo>, active: Seq<(LanguageServerId, String)>) -> Seq<ServerInfo>
    decreases active.len(),
{
    if active.len() == 0 {
        servers
    } else {
        let s = servers_after_sync(servers, active.drop_last());
        let (id, name) = active.last();
        if server_slot(s, id) >= 0 {
            s
        } else {
            s.push(running_info(id, name))
        }
    }
}

/// The servers named, each once, in the order they first appear.
pub open spec fn distinct_ids(ids: Seq<LanguageServerId>) -> Seq<LanguageServerId>
    decreases ids.len(),
{
    if ids.len() == 0 {
        seq![]
    } else {
        let d = distinct_ids(ids.drop_last());
        if d.contains(ids.last()) {
            d
        } else {
            d.push(ids.last())
        }
    }
}

/// Whether the progress operations are one generic operation ("lsp",
/// "Processing...") for each of the servers `ids`, in that order.
pub open spec fn generic_progress_of(p: Seq<LspProgress>, ids: Seq<LanguageServerId>) -> bool {
    &&& p.len() == ids.len()
    &&& forall|k: int|
        #![trigger p[k]]
        0 <= k < p.len() ==> p[k].server_id == ids[k] && p[k].token@ == "lsp"@ && p[k].title@
            == "Processing..."@ && p[k].message is None && p[k].percentage is None
}

/// The language-server state that the interface observes.
pub struct LspState<D> {
    servers: Vec<ServerInfo>,
    progress: Vec<LspProgress>,
    diagnostics: Vec<(String, Vec<DiagnosticInfo<D>>)>,
    status_message: Option<String>,
    spinner_frame: usize,
    last_spinner_update_ms: u64,
}

/// The view of the language-server state.
pub struct LspStateView<D> {
    pub servers: Seq<ServerInfo>,
    pub progress: Seq<LspProgress>,
    pub diagnostics: Seq<(Seq<char>, Seq<DiagnosticInfo<D>>)>,
    pub status_message: Option<String>,
    pub spinner_frame: usize,
    pub last_spinner_update_ms: u64,
}

impl<D> View for LspState<D> {
    type V = LspStateView<D>;

    closed spec fn view(&self) -> LspStateView<D> {
        LspStateView {
            servers: self.servers@,
            progress: self.progress@,
            diagnostics: diagnostics_view(self.diagnostics@),
            status_message: self.status_message,
            spinner_frame: self.spinner_frame,
            last_spinner_update_ms: self.last_spinner_update_ms,
        }
    }
}

impl<D> LspStateView<D> {
    /// No server or operation twice, no file twice, no empty list, and a
    /// spinner frame that exists.
    pub open spec fn well_formed(self) -> bool {
        &&& servers_unique(self.servers)
        &&& progress_unique(self.progress)
        &&& diagnostics_well_formed(self.diagnostics)
        &&& self.spinner_frame < SPINNER_FRAME_COUNT
    }
}

fn find_server(s: &Vec<ServerInfo>, id: LanguageServerId) -> (r: Option<usize>)
    requires
        servers_unique(s@),
    ensures
        match r {
            Some(i) => i == server_slot(s@, id) && 0 <= i < s@.len() && s@[i as int].id == id,
            None => server_slot(s@, id) == -1 && forall|k: int| 0 <= k < s@.len() ==> s@[k].id != id,
        },
{
    let mut i: usize = 0;
    while i < s.len()
        invariant
            i <= s.len(),
            servers_unique(s@),
            forall|k: int| 0 <= k < i ==> s@[k].id != id,
        decreases s.len() - i,
    {
        if s[i].id.0 == id.0 {
            assert(s@[i as int].id == id);
            proof {
                let j = choose|j: int| 0 <= j < s@.len() && s@[j].id == id;
                assert(0 <= j < s@.len() && s@[j].id == id);
                if j < i {
                } else if j > i {
                    assert(s@[i as int].id != s@[j].id);
                }
            }
            return Some(i);
        }
        i = i + 1;
    }
    None
}

impl<D> LspState<D> {
    /// An empty state whose spinner last moved at `now_ms`.
    pub fn new(now_ms: u64) -> (r: LspState<D>)
        ensures
            r@.well_formed(),
            r@.servers.len() == 0,
            r@.progress.len() == 0,
            r@.diagnostics.len() == 0,
            r@.status_message is None,
            r@.spinner_frame == 0,
            r@.last_spinner_update_ms == now_ms,
    {
        LspState {
            servers: Vec::new(),
            progress: Vec::new(),
            diagnostics: Vec::new(),
            status_message: None,
            spinner_frame: 0,
            last_spinner_update_ms: now_ms,
        }
    }

    /// The spinner frame at `now_ms`: the next frame once the interval has
    /// passed since the spinner last moved (a clock that went back counts as
    /// no time passed).
    pub fn get_spinner_frame(&mut self, now_ms: u64) -> (r: &'static str)
        requires
            old(self)@.well_formed(),
        ensures
            final(self)@.well_formed(),
            final(self)@ == spinner_advanced(old(self)@, now_ms),
            r@ == spinner_frame_text(final(self)@.spinner_frame as int),
    {
        let elapsed = now_ms.saturating_sub(self.last_spinner_update_ms);
        if elapsed >= SPINNER_INTERVAL_MS {
            self.spinner_frame = (self.spinner_frame + 1) % SPINNER_FRAME_COUNT;
            self.last_spinner_update_ms = now_ms;
        }
        spinner_frame(self.spinner_frame)
    }

    /// Registers a server as starting, in place of one with the same id.
    pub fn register_server(&mut self, id: LanguageServerId, name: String, root_uri: Option<String>)
        requires
            old(self)@.well_formed(),
        ensures
            final(self)@.well_formed(),
            ({
                let o = old(self)@;
                let info = ServerInfo { id, name, status: ServerStatus::Starting, root_uri, capabilities: None };
                let slot = server_slot(o.servers, id);
                final(self)@ == LspStateView {
                    servers: if slot >= 0 { o.servers.update(slot, info) } else { o.servers.push(info) },
                    ..o
                }
            }),
    {
        let info = ServerInfo { id, name, status: ServerStatus::Starting, root_uri, capabilities: None };
        match find_server(&self.servers, id) {
            Some(i) => {
                self.servers.set(i, info);
            },
            None => {
                self.servers.push(info);
            },
        }
    }

    /// Takes in what the editor reports: every active server not known yet
    /// is registered and running, the old progress operations are dropped,
    /// and each progressing server shows one generic operation.
    pub fn sync_servers(&mut self, active: Vec<(LanguageServerId, String)>, progressing: &Vec<LanguageServerId>)
        requires
            old(self)@.well_formed(),
        ensures
            final(self)@.well_formed(),
            final(self)@ == (LspStateView {
                servers: servers_after_sync(old(self)@.servers, active@),
                progress: final(self)@.progress,
                ..old(self)@
            }),
            generic_progress_of(final(self)@.progress, distinct_ids(progressing@)),
    {
        self.progress = Vec::new();
        let ghost all = active@;
        assert(all.len() == active.len());
        let mut rest = active;
        let mut taken: usize = 0;
        while rest.len() > 0
            invariant
                self@.well_formed(),
                taken + rest@.len() == all.len(),
                all.len() <= usize::MAX,
                rest@ == all.subrange(taken as int, all.len() as int),
                self@ == (LspStateView {
                    servers: servers_after_sync(old(self)@.servers, all.take(taken as int)),
                    progress: Seq::<LspProgress>::empty(),
                    ..old(self)@
                }),
            decreases rest.len(),
        {
            let ghost before = self@.servers;
            let (id, name) = rest.remove(0);
            proof {
                assert(all.take(taken + 1).drop_last() =~= all.take(taken as int));
                assert(all.take(taken + 1).last() == (id, name));
            }
            match find_server(&self.servers, id) {
                Some(_) => {},
                None => {
                    self.register_server(id, name, None);
                    proof {
                        let pushed = self@.servers;
                        assert(pushed[before.len() as int].id == id);
                        let c = server_slot(pushed, id);
                        if c != before.len() {
                            assert(pushed[c] == before[c]);
                        }
                    }
                    self.update_server_status(id, ServerStatus::Running);
                    assert(self@.servers =~= before.push(running_info(id, name)));
                },
            }
            taken = taken + 1;
            assert(rest@ =~= all.subrange(taken as int, all.len() as int));
        }
        assert(all.take(taken as int) =~= all);
        let mut i: usize = 0;
        while i < progressing.len()
            invariant
                i <= progressing.len(),
                self@.well_formed(),
                self@ == (LspStateView {
                    servers: servers_after_sync(old(self)@.servers, all),
                    progress: self@.progress,
                    ..old(self)@
                }),
                generic_progress_of(self@.progress, distinct_ids(progressing@.take(i as int))),
            decreases progressing.len() - i,
        {
            let id = progressing[i];
            let ghost before = self@.progress;
            let ghost d = distinct_ids(progressing@.take(i as int));
            proof {
                assert(progressing@.take(i + 1).drop_last() =~= progressing@.take(i as int));
                assert(progressing@.take(i + 1).last() == id);
                if d.contains(id) {
                    let k = choose|k: int| 0 <= k < d.len() && d[k] == id;
                    assert(before[k].server_id == id && before[k].token@ == "lsp"@);
                }
                if progress_slot(before, id, "lsp"@) >= 0 {
                    let k = progress_slot(before, id, "lsp"@);
                    assert(d[k] == id);
                }
            }
            self.start_progress(id, owned("lsp"), owned("Processing..."));
            proof {
                let d2 = distinct_ids(progressing@.take(i + 1));
                if d.contains(id) {
                    assert(d2 == d);
                } else {
                    assert(d2 == d.push(id));
                }
                assert(generic_progress_of(self@.progress, d2));
            }
            i = i + 1;
        }
        assert(progressing@.take(progressing.len() as int) =~= progressing@);
    }

    /// Sets the status of a registered server; nothing changes for an unknown id.
    pub fn update_server_status(&mut self, id: LanguageServerId, status: ServerStatus)
        requires
            old(self)@.well_formed(),
        ensures
            final(self)@.well_formed(),
            ({
                let o = old(self)@;
                let slot = server_slot(o.servers, id);
                final(self)@ == LspStateView {
                    servers: if slot >= 0 {
                        o.servers.update(slot, ServerInfo { status, ..o.servers[slot] })
                    } else {
                        o.servers
                    },
                    ..o
                }
            }),
    {
        match find_server(&self.servers, id) {
            Some(i) => {
                let old_info = self.servers.remove(i);
                let info = ServerInfo { status, ..old_info };
                self.servers.insert(i, info);
                assert(self.servers@ =~= old(self)@.servers.update(i as int, info));
            },
            None => {},
        }
    }

    /// Records the capabilities of a registered server, which is then
    /// running; nothing changes for an unknown id.
    pub fn update_server_capabilities(&mut self, id: LanguageServerId, capabilities: serde_json::Value)
        requires
            old(self)@.well_formed(),
        ensures
            final(self)@.well_formed(),
            ({
                let o = old(self)@;
                let slot = server_slot(o.servers, id);
                final(self)@ == LspStateView {
                    servers: if slot >= 0 {
                        o.servers.update(slot, ServerInfo {
                            status: ServerStatus::Running,
                            capabilities: Some(capabilities),
                            ..o.servers[slot]
                        })
                    } else {
                        o.servers
                    },
                    ..o
                }
            }),
    {
        match find_server(&self.servers, id) {
            Some(i) => {
                let old_info = self.servers.remove(i);
                let info = ServerInfo {
                    status: ServerStatus::Running,
                    capabilities: Some(capabilities),
                    ..old_info
                };
                self.servers.insert(i, info);
                assert(self.servers@ =~= old(self)@.servers.update(i as int, info));
            },
            None => {},
        }
    }

    /// Forgets a server, its progress operations and its diagnostics; files
    /// left without diagnostics are dropped.
    pub fn remove_server(&mut self, id: LanguageServerId)
        requires
            old(self)@.well_formed(),
        ensures
            final(self)@.well_formed(),
            ({
                let o = old(self)@;
                let slot = server_slot(o.servers, id);
                final(self)@ == LspStateView {
                    servers: if slot >= 0 { o.servers.remove(slot) } else { o.servers },
                    progress: keep_where(o.progress, progress_of_other(id)),
                    diagnostics: files_without(o.diagnostics, id),
                    ..o
                }
            }),
    {
        match find_server(&self.servers, id) {
            Some(i) => {
                self.servers.remove(i);
                assert forall|a: int, b: int| 0 <= a < b < self.servers@.len() implies self.servers@[a].id != self.servers@[b].id by {
                    let o = old(self)@.servers;
                    if a < i {
                        if b < i {
                            assert(self.servers@[b] == o[b]);
                        } else {
                            assert(self.servers@[b] == o[b + 1]);
                        }
                        assert(self.servers@[a] == o[a]);
                    } else {
                        assert(self.servers@[a] == o[a + 1] && self.servers@[b] == o[b + 1]);
                    }
                }
            },
            None => {},
        }
        let mut progress: Vec<LspProgress> = Vec::new();
        std::mem::swap(&mut progress, &mut self.progress);
        self.progress = progress_without_server(progress, id);
        let mut diagnostics: Vec<(String, Vec<DiagnosticInfo<D>>)> = Vec::new();
        std::mem::swap(&mut diagnostics, &mut self.diagnostics);
        self.diagnostics = files_without_server(diagnostics, id);
        proof {
            lemma_keep_where(old(self)@.progress, progress_of_other(id), |p: LspProgress| (p.server_id, p.token@));
            lemma_files_without(old(self)@.diagnostics, id);
            let ps = self.progress@;
            assert forall|a: int, b: int| 0 <= a < b < ps.len() implies !(ps[a].server_id == ps[b].server_id && ps[a].token@ == ps[b].token@) by {
                let key = |p: LspProgress| (p.server_id, p.token@);
                assert(key(ps[a]) != key(ps[b]));
            }
        }
    }

    /// Starts a progress operation, in place of one with the same server and token.
    pub fn start_progress(&mut self, server_id: LanguageServerId, token: String, title: String)
        requires
            old(self)@.well_formed(),
        ensures
            final(self)@.well_formed(),
            ({
                let o = old(self)@;
                let p = LspProgress { server_id, token, title, message: None, percentage: None };
                let slot = progress_slot(o.progress, server_id, token@);
                final(self)@ == LspStateView {
                    progress: if slot >= 0 { o.progress.update(slot, p) } else { o.progress.push(p) },
                    ..o
                }
            }),
    {
        let found = find_progress(&self.progress, server_id, token.as_str());
        let p = LspProgress { server_id, token, title, message: None, percentage: None };
        match found {
            Some(i) => {
                self.progress.set(i, p);
            },
            None => {
                self.progress.push(p);
            },
        }
    }

    /// Sets the message and the percentage that are given of a running
    /// progress operation; nothing changes for an unknown one.
    pub fn update_progress(&mut self, server_id: LanguageServerId, token: String, message: Option<String>, percentage: Option<u32>)
        requires
            old(self)@.well_formed(),
        ensures
            final(self)@.well_formed(),
            ({
                let o = old(self)@;
                let slot = progress_slot(o.progress, server_id, token@);
                final(self)@ == LspStateView {
                    progress: if slot >= 0 {
                        o.progress.update(slot, LspProgress {
                            message: if message is Some { message } else { o.progress[slot].message },
                            percentage: if percentage is Some { percentage } else { o.progress[slot].percentage },
                            ..o.progress[slot]
                        })
                    } else {
                        o.progress
                    },
                    ..o
                }
            }),
    {
        match find_progress(&self.progress, server_id, token.as_str()) {
            Some(i) => {
                let old_p = self.progress.remove(i);
                let new_message = match message {
                    Some(m) => Some(m),
                    None => old_p.message,
                };
                let new_percentage = match percentage {
                    Some(n) => Some(n),
                    None => old_p.percentage,
                };
                let p = LspProgress { message: new_message, percentage: new_percentage, ..old_p };
                self.progress.insert(i, p);
                assert(self.progress@ =~= old(self)@.progress.update(i as int, p));
            },
            None => {},
        }
    }

    /// Ends a progress operation; nothing changes for an unknown one.
    pub fn end_progress(&mut self, server_id: LanguageServerId, token: String)
        requires
            old(self)@.well_formed(),
        ensures
            final(self)@.well_formed(),
            ({
                let o = old(self)@;
                let slot = progress_slot(o.progress, server_id, token@);
                final(self)@ == LspStateView {
                    progress: if slot >= 0 { o.progress.remove(slot) } else { o.progress },
                    ..o
                }
            }),
    {
        match find_progress(&self.progress, server_id, token.as_str()) {
            Some(i) => {
                self.progress.remove(i);
                assert forall|a: int, b: int| 0 <= a < b < self.progress@.len() implies
                    !(self.progress@[a].server_id == self.progress@[b].server_id && self.progress@[a].token@ == self.progress@[b].token@) by {
                    let o = old(self)@.progress;
                    if a < i {
                        if b < i {
                            assert(self.progress@[b] == o[b]);
                        } else {
                            assert(self.progress@[b] == o[b + 1]);
                        }
                        assert(self.progress@[a] == o[a]);
                    } else {
                        assert(self.progress@[a] == o[a + 1] && self.progress@[b] == o[b + 1]);
                    }
                }
            },
            None => {},
        }
    }

    /// Sets the diagnostics of a file; an empty list forgets the file.
    pub fn set_diagnostics(&mut self, uri: String, diagnostics: Vec<DiagnosticInfo<D>>)
        requires
            old(self)@.well_formed(),
        ensures
            final(self)@.well_formed(),
            final(self)@ == (LspStateView {
                diagnostics: diagnostics_after_set(old(self)@.diagnostics, uri@, diagnostics@),
                ..old(self)@
            }),
    {
        let ghost ov = diagnostics_view(self.diagnostics@);
        let found = find_file(&self.diagnostics, uri.as_str());
        if diagnostics.len() == 0 {
            match found {
                Some(i) => {
                    self.diagnostics.remove(i);
                    assert(diagnostics_view(self.diagnostics@) =~= ov.remove(i as int));
                    let ghost nv = diagnostics_view(self.diagnostics@);
                    assert forall|a: int, b: int| 0 <= a < b < nv.len() implies nv[a].0 != nv[b].0 by {
                        if a < i {
                            if b < i {
                                assert(nv[b] == ov[b]);
                            } else {
                                assert(nv[b] == ov[b + 1]);
                            }
                            assert(nv[a] == ov[a]);
                        } else {
                            assert(nv[a] == ov[a + 1] && nv[b] == ov[b + 1]);
                        }
                    }
                    assert forall|a: int| 0 <= a < nv.len() implies nv[a].1.len() > 0 by {
                        if a < i {
                            assert(nv[a] == ov[a]);
                        } else {
                            assert(nv[a] == ov[a + 1]);
                        }
                    }
                },
                None => {},
            }
        } else {
            let ghost entry = (uri@, diagnostics@);
            match found {
                Some(i) => {
                    self.diagnostics.set(i, (uri, diagnostics));
                    assert(diagnostics_view(self.diagnostics@) =~= ov.update(i as int, entry));
                },
                None => {
                    self.diagnostics.push((uri, diagnostics));
                    assert(diagnostics_view(self.diagnostics@) =~= ov.push(entry));
                    assert(forall|k: int| 0 <= k < ov.len() ==> ov[k].0 != uri@);
                },
            }
        }
    }

    /// The diagnostics of a file, if it has any.
    pub fn get_diagnostics(&self, uri: &str) -> (r: Option<&Vec<DiagnosticInfo<D>>>)
        requires
            self@.well_formed(),
        ensures
            ({
                let slot = diagnostics_slot(self@.diagnostics, uri@);
                match r {
                    Some(v) => slot >= 0 && v@ == self@.diagnostics[slot].1,
                    None => slot == -1,
                }
            }),
    {
        match find_file(&self.diagnostics, uri) {
            Some(i) => Some(&self.diagnostics[i].1),
            None => None,
        }
    }

    /// The servers, in the order they were registered.
    pub fn servers(&self) -> (r: &Vec<ServerInfo>)
        ensures
            r@ == self@.servers,
    {
        &self.servers
    }

    /// The running progress operations, in the order they started.
    pub fn active_progress(&self) -> (r: &Vec<LspProgress>)
        ensures
            r@ == self@.progress,
    {
        &self.progress
    }

    /// The message that the status line shows in place of the progress.
    pub fn status_message(&self) -> (r: &Option<String>)
        ensures
            *r == self@.status_message,
    {
        &self.status_message
    }

    /// Sets or clears the message that the status line shows in place of the progress.
    pub fn set_status_message(&mut self, message: Option<String>)
        requires
            old(self)@.well_formed(),
        ensures
            final(self)@.well_formed(),
            final(self)@ == (LspStateView { status_message: message, ..old(self)@ }),
    {
        self.status_message = message;
    }

    /// How many servers are running.
    pub fn running_servers_count(&self) -> (r: usize)
        ensures
            r == running_count(self@.servers),
    {
        let mut i: usize = self.servers.len();
        let mut n: usize = 0;
        assert(self.servers@.skip(self.servers.len() as int) =~= Seq::<ServerInfo>::empty());
        while i > 0
            invariant
                i <= self.servers@.len(),
                n == running_count(self.servers@.skip(i as int)),
                n <= self.servers@.len() - i,
                self.servers@.len() == self.servers.len(),
            decreases i,
        {
            assert(self.servers@.skip(i - 1).drop_first() =~= self.servers@.skip(i as int));
            assert(self.servers@.skip(i - 1)[0] == self.servers@[i - 1]);
            match self.servers[i - 1].status {
                ServerStatus::Running => {
                    n = n + 1;
                },
                _ => {},
            }
            i = i - 1;
        }
        assert(self.servers@.skip(0) =~= self.servers@);
        n
    }

    /// Whether a progress operation runs.
    pub fn is_busy(&self) -> (r: bool)
        ensures
            r == (self@.progress.len() > 0),
    {
        self.progress.len() > 0
    }

    /// Whether any server is known.
    pub fn has_any_lsp_server(&self) -> (r: bool)
        ensures
            r == (self@.servers.len() > 0),
    {
        self.servers.len() > 0
    }

    /// Whether the spinner shows: some progress runs or some server starts.
    pub fn should_show_spinner(&self) -> (r: bool)
        ensures
            r == shows_spinner(self@),
    {
        if self.progress.len() > 0 {
            return true;
        }
        let mut i: usize = 0;
        while i < self.servers.len()
            invariant
                i <= self.servers@.len(),
                forall|k: int| 0 <= k < i ==> !(self.servers@[k].status is Starting || self.servers@[k].status is Initializing),
            decreases self.servers.len() - i,
        {
            match self.servers[i].status {
                ServerStatus::Starting | ServerStatus::Initializing => {
                    return true;
                },
                _ => {},
            }
            i = i + 1;
        }
        false
    }

    /// The status line's summary: the status message, else the progress
    /// operations joined by commas, else nothing.
    pub fn status_string(&self) -> (r: Option<String>)
        ensures
            match r {
                Some(t) => status_string_spec(self@) == Some(t@),
                None => status_string_spec(self@) is None,
            },
    {
        match &self.status_message {
            Some(m) => {
                return Some(m.clone());
            },
            None => {},
        }
        if self.progress.len() == 0 {
            return None;
        }
        let mut out = progress_chars(&self.progress[0]);
        let mut i: usize = 1;
        assert(self.progress@.subrange(0, 1).drop_last() =~= Seq::<LspProgress>::empty());
        while i < self.progress.len()
            invariant
                1 <= i <= self.progress@.len(),
                out@ == joined_progress(self.progress@.subrange(0, i as int)),
            decreases self.progress.len() - i,
        {
            let sep = chars_of(", ");
            append_chars(&mut out, sep.as_slice());
            let t = progress_chars(&self.progress[i]);
            append_chars(&mut out, t.as_slice());
            assert(self.progress@.subrange(0, i + 1).drop_last() =~= self.progress@.subrange(0, i as int));
            i = i + 1;
        }
        assert(self.progress@.subrange(0, self.progress.len() as int) =~= self.progress@);
        Some(string_of(out.as_slice()))
    }

    /// The indicator of the status line at `now_ms`: nothing without
    /// servers; otherwise the spinner frame while there is activity (moving
    /// it on when its interval has passed), a dot when idle, and the most
    /// recently started progress operation's text, shortened, after a space.
    pub fn get_lsp_indicator(&mut self, now_ms: u64) -> (r: Option<String>)
        requires
            old(self)@.well_formed(),
        ensures
            final(self)@.well_formed(),
            final(self)@ == indicator_state(old(self)@, now_ms),
            match r {
                Some(t) => indicator_spec(old(self)@, now_ms) == Some(t@),
                None => indicator_spec(old(self)@, now_ms) is None,
            },
    {
        if self.servers.len() == 0 {
            return None;
        }
        let mut out: Vec<char> = if self.should_show_spinner() {
            let frame = self.get_spinner_frame(now_ms);
            chars_of(frame)
        } else {
            chars_of("◉")
        };
        if self.progress.len() > 0 {
            let space = chars_of(" ");
            append_chars(&mut out, space.as_slice());
            let text = progress_chars(&self.progress[self.progress.len() - 1]);
            let short = shorten(text);
            append_chars(&mut out, short.as_slice());
        }
        Some(string_of(out.as_slice()))
    }
}


proof fn lemma_diagnostics_slot_is<D>(s: Seq<(Seq<char>, Seq<DiagnosticInfo<D>>)>, uri: Seq<char>, i: int)
    requires
        diagnostics_well_formed(s),
        0 <= i < s.len(),
        s[i].0 == uri,
    ensures
        diagnostics_slot(s, uri) == i,
{
    let j = choose|j: int| 0 <= j < s.len() && s[j].0 == uri;
    assert(0 <= j < s.len() && s[j].0 == uri);
    if j < i {
        assert(s[j].0 != s[i].0);
    } else if j > i {
        assert(s[i].0 != s[j].0);
    }
}

/// Reading the diagnostics of a file gives back what was last set for it:
/// the list when it is not empty, nothing when it is.
pub proof fn lemma_get_after_set_diagnostics<D>(o: Seq<(Seq<char>, Seq<DiagnosticInfo<D>>)>, uri: Seq<char>, d: Seq<DiagnosticInfo<D>>)
    requires
        diagnostics_well_formed(o),
    ensures
        ({
            let n = diagnostics_after_set(o, uri, d);
            let slot = diagnostics_slot(n, uri);
            &&& diagnostics_well_formed(n)
            &&& d.len() > 0 ==> slot >= 0 && n[slot].1 == d
            &&& d.len() == 0 ==> slot == -1
        }),
{
    let n = diagnostics_after_set(o, uri, d);
    let slot = diagnostics_slot(o, uri);
    if slot >= 0 {
        let j = choose|j: int| 0 <= j < o.len() && o[j].0 == uri;
        assert(o[slot].0 == uri);
    }
    if d.len() == 0 {
        if slot >= 0 {
            assert forall|a: int, b: int| 0 <= a < b < n.len() implies n[a].0 != n[b].0 by {
                if a < slot {
                    if b < slot {
                        assert(n[b] == o[b]);
                    } else {
                        assert(n[b] == o[b + 1]);
                    }
                    assert(n[a] == o[a]);
                } else {
                    assert(n[a] == o[a + 1] && n[b] == o[b + 1]);
                }
            }
            assert forall|a: int| 0 <= a < n.len() implies n[a].1.len() > 0 by {
                if a < slot {
                    assert(n[a] == o[a]);
                } else {
                    assert(n[a] == o[a + 1]);
                }
            }
            assert forall|a: int| 0 <= a < n.len() implies n[a].0 != uri by {
                if a < slot {
                    assert(n[a] == o[a]);
                    assert(o[a].0 != o[slot].0);
                } else {
                    assert(n[a] == o[a + 1]);
                    assert(o[slot].0 != o[a + 1].0);
                }
            }
        }
    } else if slot >= 0 {
        assert forall|a: int, b: int| 0 <= a < b < n.len() implies n[a].0 != n[b].0 by {
            assert(n[a].0 == o[a].0 && n[b].0 == o[b].0);
        }
        lemma_diagnostics_slot_is(n, uri, slot);
    } else {
        assert forall|a: int, b: int| 0 <= a < b < n.len() implies n[a].0 != n[b].0 by {
            if b < o.len() {
                assert(n[a] == o[a] && n[b] == o[b]);
            } else {
                assert(n[a] == o[a]);
            }
        }
        lemma_diagnostics_slot_is(n, uri, o.len() as int);
    }
}

/// After a server is removed, nothing of it is left: no server with its id,
/// no progress operation of it and no diagnostic from it.
pub proof fn lemma_removed_server_leaves_no_trace<D>(o: LspStateView<D>, id: LanguageServerId)
    requires
        o.well_formed(),
    ensures
        ({
            let slot = server_slot(o.servers, id);
            let servers = if slot >= 0 { o.servers.remove(slot) } else { o.servers };
            let progress = keep_where(o.progress, progress_of_other(id));
            let diagnostics = files_without(o.diagnostics, id);
            &&& forall|i: int| 0 <= i < servers.len() ==> servers[i].id != id
            &&& forall|i: int| 0 <= i < progress.len() ==> progress[i].server_id != id
            &&& forall|i: int, k: int| 0 <= i < diagnostics.len() && 0 <= k < diagnostics[i].1.len()
                ==> diagnostics[i].1[k].server_id != id
        }),
{
    let slot = server_slot(o.servers, id);
    let servers = if slot >= 0 { o.servers.remove(slot) } else { o.servers };
    if slot >= 0 {
        let j = choose|j: int| 0 <= j < o.servers.len() && o.servers[j].id == id;
        assert(o.servers[slot].id == id);
        assert forall|i: int| 0 <= i < servers.len() implies servers[i].id != id by {
            if i < slot {
                assert(servers[i] == o.servers[i]);
                assert(o.servers[i].id != o.servers[slot].id);
            } else {
                assert(servers[i] == o.servers[i + 1]);
                assert(o.servers[slot].id != o.servers[i + 1].id);
            }
        }
    }
    lemma_keep_where(o.progress, progress_of_other(id), |p: LspProgress| p.server_id);
    let progress = keep_where(o.progress, progress_of_other(id));
    assert forall|i: int| 0 <= i < progress.len() implies progress[i].server_id != id by {
        assert(progress_of_other(id)(progress[i]));
    }
    lemma_files_without(o.diagnostics, id);
}

/// The message part of the indicator never takes more than the longest
/// length in characters, and a message that fits is shown whole.
pub proof fn lemma_shortened_fits(m: Seq<char>)
    ensures
        shortened(m).len() <= MAX_MESSAGE_LEN,
        m.len() <= MAX_MESSAGE_LEN ==> shortened(m) == m,
{
    reveal_strlit("...");
}

/// A registered server is known under its id as starting, and a progress
/// operation that ended is gone.
pub proof fn lemma_register_and_end_progress<D>(o: LspStateView<D>, id: LanguageServerId, info: ServerInfo, token: Seq<char>)
    requires
        o.well_formed(),
        info.id == id,
        info.status is Starting,
    ensures
        ({
            let slot = server_slot(o.servers, id);
            let servers = if slot >= 0 { o.servers.update(slot, info) } else { o.servers.push(info) };
            let s2 = server_slot(servers, id);
            s2 >= 0 && servers[s2].status is Starting && servers_unique(servers)
        }),
        ({
            let slot = progress_slot(o.progress, id, token);
            let progress = if slot >= 0 { o.progress.remove(slot) } else { o.progress };
            progress_slot(progress, id, token) == -1
        }),
{
    let slot = server_slot(o.servers, id);
    let servers = if slot >= 0 { o.servers.update(slot, info) } else { o.servers.push(info) };
    let at = if slot >= 0 { slot } else { o.servers.len() as int };
    if slot >= 0 {
        let j = choose|j: int| 0 <= j < o.servers.len() && o.servers[j].id == id;
        assert(o.servers[slot].id == id);
    }
    assert forall|a: int, b: int| 0 <= a < b < servers.len() implies servers[a].id != servers[b].id by {
        if slot >= 0 {
            assert(servers[a].id == o.servers[a].id && servers[b].id == o.servers[b].id);
        } else if b < o.servers.len() {
            assert(servers[a] == o.servers[a] && servers[b] == o.servers[b]);
        } else {
            assert(servers[a] == o.servers[a]);
        }
    }
    assert(servers[at].id == id);
    let j = choose|j: int| 0 <= j < servers.len() && servers[j].id == id;
    assert(0 <= j < servers.len() && servers[j].id == id);
    if j != at {
        if j < at {
            assert(servers[j].id != servers[at].id);
        } else {
            assert(servers[at].id != servers[j].id);
        }
    }
    let ps = progress_slot(o.progress, id, token);
    let progress = if ps >= 0 { o.progress.remove(ps) } else { o.progress };
    if ps >= 0 {
        let k = choose|k: int| 0 <= k < o.progress.len() && o.progress[k].server_id == id && o.progress[k].token@ == token;
        assert(o.progress[ps].server_id == id && o.progress[ps].token@ == token);
        assert forall|i: int| 0 <= i < progress.len() implies !(progress[i].server_id == id && progress[i].token@ == token) by {
            if i < ps {
                assert(progress[i] == o.progress[i]);
                assert(!(o.progress[i].server_id == o.progress[ps].server_id && o.progress[i].token@ == o.progress[ps].token@));
            } else {
                assert(progress[i] == o.progress[i + 1]);
                assert(!(o.progress[ps].server_id == o.progress[i + 1].server_id && o.progress[ps].token@ == o.progress[i + 1].token@));
            }
        }
    }
}

/// The running count splits over a concatenation: the servers of the
/// first part that run plus those of the second.
pub proof fn lemma_running_count_adds(a: Seq<ServerInfo>, b: Seq<ServerInfo>)
    ensures
        running_count(a + b) == running_count(a) + running_count(b),
    decreases a.len(),
{
    if a.len() == 0 {
        assert(a + b =~= b);
    } else {
        assert((a + b).drop_first() =~= a.drop_first() + b);
        lemma_running_count_adds(a.drop_first(), b);
    }
}

/// The running count is the number of servers whose status is `Running`:
/// the length of the servers kept by that status. One more server adds one
/// exactly when it runs.
pub proof fn lemma_running_count_counts_running(s: Seq<ServerInfo>, x: ServerInfo)
    ensures
        running_count(s) == s.filter(|i: ServerInfo| i.status is Running).len(),
        running_count(s.push(x)) == running_count(s) + (if x.status is Running { 1int } else { 0int }),
    decreases s.len(),
{
    let running = |i: ServerInfo| i.status is Running;
    reveal(Seq::filter);
    lemma_running_count_adds(s, seq![x]);
    assert(s.push(x) =~= s + seq![x]);
    assert(running_count(seq![x]) == (if x.status is Running { 1nat } else { 0nat })) by {
        assert(seq![x].drop_first() =~= Seq::<ServerInfo>::empty());
        assert(running_count(seq![x].drop_first()) == 0);
    }
    if s.len() > 0 {
        lemma_running_count_counts_running(s.drop_last(), s.last());
        assert(s.drop_last().push(s.last()) =~= s);
        assert(s.filter(running) == (if running(s.last()) {
            s.drop_last().filter(running).push(s.last())
        } else {
            s.drop_last().filter(running)
        }));
    }
}

} // verus!
