//! Requests, actions and results of scripted Chrome sessions, and the
//! launch settings of a headless login browser.

use vstd::prelude::*;
use vstd::string::*;
use crate::fingerprint::{decimal, decimal_string};
use crate::text::{chars_of, contains, contains_str, join, push_char, str_eq, utf8};

verus! {

/// A scripted browser interaction: load `url`, then run `actions` in order.
#[derive(Debug)]
pub struct InteractRequest {
    pub url: String,
    pub actions: Vec<ChromeAction>,
    /// Overall deadline in seconds (30 when the request leaves it out).
    pub timeout_secs: u64,
    pub proxy: Option<String>,
    pub session_id: Option<String>,
}

/// The timeout of an interaction request that does not give one.
pub const DEFAULT_INTERACT_TIMEOUT_SECS: u64 = 30;

/// How long `WaitFor` waits when the action does not say, in milliseconds.
pub const DEFAULT_WAIT_MS: u64 = 5000;

/// One step of a scripted interaction.
#[allow(inconsistent_fields)]
#[derive(Debug, Clone)]
pub enum ChromeAction {
    Click { selector: String, humanize: bool },
    TypeText { selector: String, text: String, humanize: bool },
    WaitFor { selector: String, timeout_ms: u64 },
    Screenshot { label: String },
    Evaluate { js: String },
    Press { key: String },
    Sleep { ms: u64 },
    GetCookies,
    SetCookies { cookies: Vec<CookieInput> },
    DestroySession,
    Snapshot { label: Option<String> },
    HandleDialog { accept: bool, prompt_text: Option<String> },
    Hover { selector: String, humanize: bool },
    GoBack,
    GetLogs,
}

/// A cookie to set in the browser.
#[derive(Debug, Clone)]
pub struct CookieInput {
    pub name: String,
    pub value: String,
    pub domain: String,
    /// Cookie path (`/` when the request leaves it out).
    pub path: String,
    pub secure: bool,
    pub http_only: bool,
}

/// A cookie read back from the browser.
#[derive(Debug, Clone)]
pub struct CookieEntry {
    pub name: String,
    pub value: String,
    pub domain: String,
    pub path: String,
    pub secure: bool,
    pub http_only: bool,
}

/// A labelled screenshot, PNG encoded as base64.
#[derive(Debug, Clone)]
pub struct ScreenshotResult {
    pub label: String,
    pub base64_png: String,
}

/// A script and what it evaluated to.
#[derive(Debug, Clone)]
pub struct EvalResult {
    pub js: String,
    pub result: String,
}

/// A labelled accessibility-tree snapshot.
#[derive(Debug, Clone)]
pub struct SnapshotResult {
    pub label: String,
    pub tree: String,
}

/// A network request seen during a session.
#[derive(Debug, Clone)]
pub struct NetworkEntry {
    pub method: String,
    pub url: String,
    pub status: Option<i64>,
    pub error: Option<String>,
}

/// A console message logged during a session.
#[derive(Debug, Clone)]
pub struct ConsoleEntry {
    pub level: String,
    pub text: String,
}

/// Most entries a session keeps per log, so a chatty page cannot grow memory
/// without bound.
pub const MAX_LOG_ENTRIES: usize = 1000;

/// The network and console logs of one session, each capped at
/// `MAX_LOG_ENTRIES`; entries past the cap are dropped.
pub struct SessionLogs {
    network: Vec<NetworkEntry>,
    console: Vec<ConsoleEntry>,
}

impl SessionLogs {
    /// The network entries kept so far, oldest first.
    pub closed spec fn network_log(&self) -> Seq<NetworkEntry> {
        self.network@
    }

    /// The console entries kept so far, oldest first.
    pub closed spec fn console_log(&self) -> Seq<ConsoleEntry> {
        self.console@
    }

    #[verifier::type_invariant]
    spec fn within_cap(&self) -> bool {
        self.network@.len() <= MAX_LOG_ENTRIES && self.console@.len() <= MAX_LOG_ENTRIES
    }

    /// Empty logs.
    pub fn new() -> (r: SessionLogs)
        ensures
            r.network_log().len() == 0,
            r.console_log().len() == 0,
    {
        SessionLogs { network: Vec::new(), console: Vec::new() }
    }

    /// Records a network entry unless the network log is full.
    pub fn push_network(&mut self, entry: NetworkEntry)
        ensures
            final(self).network_log() == if old(self).network_log().len() < MAX_LOG_ENTRIES {
                old(self).network_log().push(entry)
            } else {
                old(self).network_log()
            },
            final(self).console_log() == old(self).console_log(),
            final(self).network_log().len() <= MAX_LOG_ENTRIES,
    {
        proof {
            use_type_invariant(&*self);
        }
        if self.network.len() < MAX_LOG_ENTRIES {
            let mut v: Vec<NetworkEntry> = Vec::new();
            std::mem::swap(&mut v, &mut self.network);
            v.push(entry);
            self.network = v;
        }
    }

    /// Records a console entry unless the console log is full.
    pub fn push_console(&mut self, entry: ConsoleEntry)
        ensures
            final(self).console_log() == if old(self).console_log().len() < MAX_LOG_ENTRIES {
                old(self).console_log().push(entry)
            } else {
                old(self).console_log()
            },
            final(self).network_log() == old(self).network_log(),
            final(self).console_log().len() <= MAX_LOG_ENTRIES,
    {
        proof {
            use_type_invariant(&*self);
        }
        if self.console.len() < MAX_LOG_ENTRIES {
            let mut v: Vec<ConsoleEntry> = Vec::new();
            std::mem::swap(&mut v, &mut self.console);
            v.push(entry);
            self.console = v;
        }
    }

    /// Hands out every network entry and empties the network log.
    pub fn take_network(&mut self) -> (r: Vec<NetworkEntry>)
        ensures
            r@ == old(self).network_log(),
            final(self).network_log().len() == 0,
            final(self).console_log() == old(self).console_log(),
    {
        proof {
            use_type_invariant(&*self);
        }
        let mut out: Vec<NetworkEntry> = Vec::new();
        std::mem::swap(&mut out, &mut self.network);
        out
    }

    /// Hands out every console entry and empties the console log.
    pub fn take_console(&mut self) -> (r: Vec<ConsoleEntry>)
        ensures
            r@ == old(self).console_log(),
            final(self).console_log().len() == 0,
            final(self).network_log() == old(self).network_log(),
    {
        proof {
            use_type_invariant(&*self);
        }
        let mut out: Vec<ConsoleEntry> = Vec::new();
        std::mem::swap(&mut out, &mut self.console);
        out
    }
}

/// How an interaction ended.
#[derive(Debug, Clone, Copy, PartialEq, Eq, Structural)]
pub enum InteractStatus {
    /// Every action ran (serialised as `ok`).
    Succeeded,
    Error,
    Partial,
}

/// The results an interaction collected, in the order the actions produced
/// them.
#[derive(Debug)]
pub struct ActionResults {
    pub screenshots: Vec<ScreenshotResult>,
    pub evaluations: Vec<EvalResult>,
    pub snapshots: Vec<SnapshotResult>,
    pub network_log: Vec<NetworkEntry>,
    pub console_log: Vec<ConsoleEntry>,
}

impl ActionResults {
    /// No results yet.
    pub fn new() -> (r: ActionResults)
        ensures
            r.screenshots@.len() == 0,
            r.evaluations@.len() == 0,
            r.snapshots@.len() == 0,
            r.network_log@.len() == 0,
            r.console_log@.len() == 0,
    {
        ActionResults {
            screenshots: Vec::new(),
            evaluations: Vec::new(),
            snapshots: Vec::new(),
            network_log: Vec::new(),
            console_log: Vec::new(),
        }
    }
}

/// The answer to an interaction request.
#[derive(Debug)]
pub struct InteractResponse {
    pub status: InteractStatus,
    pub error: Option<String>,
    pub screenshots: Vec<ScreenshotResult>,
    pub evaluations: Vec<EvalResult>,
    pub snapshots: Vec<SnapshotResult>,
    /// Cookie name/value pairs of the page at the end.
    pub cookies: Vec<(String, String)>,
    pub final_url: String,
    pub session_id: Option<String>,
    pub network_log: Vec<NetworkEntry>,
    pub console_log: Vec<ConsoleEntry>,
}

impl InteractResponse {
    /// An error response with no action results.
    pub fn error(msg: String) -> (r: InteractResponse)
        ensures
            r.status == InteractStatus::Error,
            r.error matches Some(e) && e@ == msg@,
            r.screenshots@.len() == 0,
            r.evaluations@.len() == 0,
            r.snapshots@.len() == 0,
            r.cookies@.len() == 0,
            r.final_url@.len() == 0,
            r.session_id is None,
            r.network_log@.len() == 0,
            r.console_log@.len() == 0,
    {
        InteractResponse {
            status: InteractStatus::Error,
            error: Some(msg),
            screenshots: Vec::new(),
            evaluations: Vec::new(),
            snapshots: Vec::new(),
            cookies: Vec::new(),
            final_url: String::new(),
            session_id: None,
            network_log: Vec::new(),
            console_log: Vec::new(),
        }
    }

    /// A partial response keeping the results collected so far and the
    /// page's cookies and URL.
    pub fn partial(msg: String, acc: ActionResults, page_state: (Vec<(String, String)>, String)) -> (r:
        InteractResponse)
        ensures
            r.status == InteractStatus::Partial,
            r.error matches Some(e) && e@ == msg@,
            r.screenshots@ == acc.screenshots@,
            r.evaluations@ == acc.evaluations@,
            r.snapshots@ == acc.snapshots@,
            r.cookies@ == page_state.0@,
            r.final_url@ == page_state.1@,
            r.session_id is None,
            r.network_log@ == acc.network_log@,
            r.console_log@ == acc.console_log@,
    {
        InteractResponse {
            status: InteractStatus::Partial,
            error: Some(msg),
            screenshots: acc.screenshots,
            evaluations: acc.evaluations,
            snapshots: acc.snapshots,
            cookies: page_state.0,
            final_url: page_state.1,
            session_id: None,
            network_log: acc.network_log,
            console_log: acc.console_log,
        }
    }
}

/// What a single action produced.
#[derive(Debug)]
pub enum ActionOutput {
    /// The action produced no output.
    Nothing,
    Screenshot(ScreenshotResult),
    Eval(EvalResult),
    Snapshot(SnapshotResult),
    Cookies(Vec<CookieEntry>),
    Logs { network: Vec<NetworkEntry>, console: Vec<ConsoleEntry> },
}

// ---------------------------------------------------------------------------
// Collecting the results of a run
// ---------------------------------------------------------------------------

/// The lowercase hexadecimal digit for `d` (below 16).
pub open spec fn lower_hex(d: u32) -> char {
    if d < 10 {
        ((48 + d) as u8) as char
    } else {
        ((87 + d) as u8) as char
    }
}

/// How `serde_json` writes one character inside a string: `"` and `\`
/// backslash-escaped, the control characters with a short escape (`\b`,
/// `\t`, `\n`, `\f`, `\r`) or as `\u00XX` with lowercase hex, everything
/// else as it is.
pub open spec fn json_char(c: char) -> Seq<char> {
    if c == '"' {
        seq!['\\', '"']
    } else if c == '\\' {
        seq!['\\', '\\']
    } else if c == '\u{8}' {
        seq!['\\', 'b']
    } else if c == '\t' {
        seq!['\\', 't']
    } else if c == '\n' {
        seq!['\\', 'n']
    } else if c == '\u{c}' {
        seq!['\\', 'f']
    } else if c == '\r' {
        seq!['\\', 'r']
    } else if (c as u32) < 0x20 {
        seq!['\\', 'u', '0', '0', lower_hex((c as u32) / 16), lower_hex((c as u32) % 16)]
    } else {
        seq![c]
    }
}

/// The escaped characters of a string.
pub open spec fn json_chars(s: Seq<char>) -> Seq<char>
    decreases s.len(),
{
    if s.len() == 0 {
        Seq::empty()
    } else {
        json_chars(s.drop_last()) + json_char(s.last())
    }
}

/// A string as a JSON string literal.
pub open spec fn json_string(s: Seq<char>) -> Seq<char> {
    seq!['"'] + json_chars(s) + seq!['"']
}

/// A boolean as JSON.
pub open spec fn json_bool(b: bool) -> Seq<char> {
    if b {
        "true"@
    } else {
        "false"@
    }
}

/// A cookie as `serde_json` writes it: its fields in declaration order.
pub open spec fn cookie_json(c: CookieEntry) -> Seq<char> {
    "{\"name\":"@ + json_string(c.name@) + ",\"value\":"@ + json_string(c.value@) + ",\"domain\":"@
        + json_string(c.domain@) + ",\"path\":"@ + json_string(c.path@) + ",\"secure\":"@
        + json_bool(c.secure) + ",\"http_only\":"@ + json_bool(c.http_only) + "}"@
}

/// The JSON objects of some cookies.
pub open spec fn cookie_jsons(cs: Seq<CookieEntry>) -> Seq<Seq<char>> {
    cs.map_values(|c: CookieEntry| cookie_json(c))
}

/// Some cookies as a compact JSON array.
pub open spec fn cookies_json_text(cs: Seq<CookieEntry>) -> Seq<char> {
    "["@ + join(cookie_jsons(cs), ","@) + "]"@
}

fn push_lower_hex(out: &mut String, d: u32)
    requires
        d < 16,
    ensures
        final(out)@ == old(out)@.push(lower_hex(d)),
{
    if d < 10 {
        push_char(out, ((48 + d) as u8) as char);
    } else {
        push_char(out, ((87 + d) as u8) as char);
    }
}

/// Appends `s` as a JSON string literal.
fn push_json_string(out: &mut String, s: &str)
    ensures
        final(out)@ == old(out)@ + json_string(s@),
{
    let ghost start = out@;
    let chars = chars_of(s);
    push_char(out, '"');
    let mut i: usize = 0;
    while i < chars.len()
        invariant
            i <= chars@.len(),
            chars@ == s@,
            out@ == start + seq!['"'] + json_chars(chars@.take(i as int)),
        decreases chars@.len() - i,
    {
        let c = chars[i];
        let ghost before = out@;
        let code = c as u32;
        if c == '"' {
            push_char(out, '\\');
            push_char(out, '"');
        } else if c == '\\' {
            push_char(out, '\\');
            push_char(out, '\\');
        } else if c == '\u{8}' {
            push_char(out, '\\');
            push_char(out, 'b');
        } else if c == '\t' {
            push_char(out, '\\');
            push_char(out, 't');
        } else if c == '\n' {
            push_char(out, '\\');
            push_char(out, 'n');
        } else if c == '\u{c}' {
            push_char(out, '\\');
            push_char(out, 'f');
        } else if c == '\r' {
            push_char(out, '\\');
            push_char(out, 'r');
        } else if code < 0x20 {
            push_char(out, '\\');
            push_char(out, 'u');
            push_char(out, '0');
            push_char(out, '0');
            push_lower_hex(out, code / 16);
            push_lower_hex(out, code % 16);
        } else {
            push_char(out, c);
        }
        assert(out@ =~= before + json_char(c));
        assert(chars@.take(i + 1).drop_last() =~= chars@.take(i as int));
        i += 1;
    }
    assert(chars@.take(chars@.len() as int) =~= chars@);
    push_char(out, '"');
    assert(out@ =~= start + json_string(s@));
}

/// The JSON text of one cookie.
fn cookie_to_json(c: &CookieEntry) -> (r: String)
    ensures
        r@ == cookie_json(*c),
{
    let mut r = String::from_str("{\"name\":");
    push_json_string(&mut r, c.name.as_str());
    r.append(",\"value\":");
    push_json_string(&mut r, c.value.as_str());
    r.append(",\"domain\":");
    push_json_string(&mut r, c.domain.as_str());
    r.append(",\"path\":");
    push_json_string(&mut r, c.path.as_str());
    r.append(",\"secure\":");
    r.append(if c.secure { "true" } else { "false" });
    r.append(",\"http_only\":");
    r.append(if c.http_only { "true" } else { "false" });
    r.append("}");
    r
}

/// The cookies a `GetCookies` action read, as the compact JSON array
/// `serde_json` would write for them.
pub fn cookies_json(entries: &Vec<CookieEntry>) -> (r: String)
    ensures
        r@ == cookies_json_text(entries@),
{
    let ghost parts = cookie_jsons(entries@);
    let mut body = String::new();
    let mut i: usize = 0;
    while i < entries.len()
        invariant
            i <= entries@.len(),
            parts == cookie_jsons(entries@),
            body@ == join(parts.take(i as int), ","@),
        decreases entries@.len() - i,
    {
        assert(parts.take(i + 1).drop_last() =~= parts.take(i as int));
        let one = cookie_to_json(&entries[i]);
        if i > 0 {
            body.append(",");
        }
        body.append(one.as_str());
        assert(parts[i as int] == one@);
        i += 1;
    }
    assert(parts.take(entries@.len() as int) =~= parts);
    let mut r = String::from_str("[");
    r.append(body.as_str());
    r.append("]");
    r
}

/// The script name recorded for the cookies a `GetCookies` action read.
pub const GET_COOKIES_SCRIPT: &'static str = "get_cookies";

impl ActionResults {
    /// Adds what one action produced: screenshots, evaluations and snapshots
    /// join their lists; cookies are recorded as an evaluation of
    /// `get_cookies` holding their JSON; logs join the network and console
    /// logs.
    pub fn absorb(&mut self, out: ActionOutput)
        ensures
            match out {
                ActionOutput::Nothing => *final(self) == *old(self),
                ActionOutput::Screenshot(s) => final(self).screenshots@ == old(self).screenshots@.push(s)
                    && final(self).evaluations == old(self).evaluations
                    && final(self).snapshots == old(self).snapshots
                    && final(self).network_log == old(self).network_log
                    && final(self).console_log == old(self).console_log,
                ActionOutput::Eval(e) => final(self).evaluations@ == old(self).evaluations@.push(e)
                    && final(self).screenshots == old(self).screenshots
                    && final(self).snapshots == old(self).snapshots
                    && final(self).network_log == old(self).network_log
                    && final(self).console_log == old(self).console_log,
                ActionOutput::Snapshot(s) => final(self).snapshots@ == old(self).snapshots@.push(s)
                    && final(self).screenshots == old(self).screenshots
                    && final(self).evaluations == old(self).evaluations
                    && final(self).network_log == old(self).network_log
                    && final(self).console_log == old(self).console_log,
                ActionOutput::Cookies(cs) => final(self).evaluations@.len() == old(self).evaluations@.len()
                    + 1 && final(self).evaluations@.drop_last() == old(self).evaluations@
                    && final(self).evaluations@.last().js@ == GET_COOKIES_SCRIPT@
                    && final(self).evaluations@.last().result@ == cookies_json_text(cs@)
                    && final(self).screenshots == old(self).screenshots
                    && final(self).snapshots == old(self).snapshots
                    && final(self).network_log == old(self).network_log
                    && final(self).console_log == old(self).console_log,
                ActionOutput::Logs { network, console } => final(self).network_log@
                    == old(self).network_log@ + network@ && final(self).console_log@
                    == old(self).console_log@ + console@ && final(self).screenshots
                    == old(self).screenshots && final(self).evaluations == old(self).evaluations
                    && final(self).snapshots == old(self).snapshots,
            },
    {
        match out {
            ActionOutput::Nothing => {},
            ActionOutput::Screenshot(s) => self.screenshots.push(s),
            ActionOutput::Eval(e) => self.evaluations.push(e),
            ActionOutput::Snapshot(s) => self.snapshots.push(s),
            ActionOutput::Cookies(cs) => {
                let json = cookies_json(&cs);
                let ghost e0 = self.evaluations@;
                self.evaluations.push(EvalResult { js: GET_COOKIES_SCRIPT.to_string(), result: json });
                assert(self.evaluations@.drop_last() =~= e0);
            },
            ActionOutput::Logs { network, console } => {
                let mut network = network;
                let mut console = console;
                self.network_log.append(&mut network);
                self.console_log.append(&mut console);
            },
        }
    }
}

/// Whether a run asks for the session logs (so listeners must be attached
/// before navigating).
pub fn has_get_logs_action(actions: &Vec<ChromeAction>) -> (r: bool)
    ensures
        r == exists|i: int| 0 <= i < actions@.len() && #[trigger] actions@[i] is GetLogs,
{
    let mut i: usize = 0;
    while i < actions.len()
        invariant
            i <= actions@.len(),
            forall|j: int| 0 <= j < i ==> !(#[trigger] actions@[j] is GetLogs),
        decreases actions@.len() - i,
    {
        if let ChromeAction::GetLogs = &actions[i] {
            assert(actions@[i as int] is GetLogs);
            return true;
        }
        i += 1;
    }
    false
}

/// The error of a run whose navigation failed.
pub fn navigate_error(reason: &str) -> (r: String)
    ensures
        r@ == "navigate: "@ + reason@,
{
    let mut r = String::from_str("navigate: ");
    r.append(reason);
    r
}

/// The error of a run that ran out of time before action `i`.
pub fn timeout_error(i: usize) -> (r: String)
    ensures
        r@ == "timeout at action "@ + decimal(i as nat),
{
    let mut r = String::from_str("timeout at action ");
    let d = decimal_string(i as u64);
    r.append(d.as_str());
    r
}

/// The error of a run whose action `i` failed.
pub fn action_error(i: usize, reason: &str) -> (r: String)
    ensures
        r@ == "action "@ + decimal(i as nat) + " failed: "@ + reason@,
{
    let mut r = String::from_str("action ");
    let d = decimal_string(i as u64);
    r.append(d.as_str());
    r.append(" failed: ");
    r.append(reason);
    r
}

impl InteractResponse {
    /// The response of a run whose every action succeeded.
    pub fn succeeded(acc: ActionResults, page_state: (Vec<(String, String)>, String)) -> (r: InteractResponse)
        ensures
            r.status == InteractStatus::Succeeded,
            r.error is None,
            r.screenshots@ == acc.screenshots@,
            r.evaluations@ == acc.evaluations@,
            r.snapshots@ == acc.snapshots@,
            r.cookies@ == page_state.0@,
            r.final_url@ == page_state.1@,
            r.session_id is None,
            r.network_log@ == acc.network_log@,
            r.console_log@ == acc.console_log@,
    {
        InteractResponse {
            status: InteractStatus::Succeeded,
            error: None,
            screenshots: acc.screenshots,
            evaluations: acc.evaluations,
            snapshots: acc.snapshots,
            cookies: page_state.0,
            final_url: page_state.1,
            session_id: None,
            network_log: acc.network_log,
            console_log: acc.console_log,
        }
    }
}

// ---------------------------------------------------------------------------
// Login browser
// ---------------------------------------------------------------------------

/// The user agent set on a stock Chrome to hide headless mode.
pub const STEALTH_UA: &'static str =
    "Mozilla/5.0 (Windows NT 10.0; Win64; x64) AppleWebKit/537.36 (KHTML, like Gecko) Chrome/131.0.0.0 Safari/537.36";

/// No user-agent override: CloakBrowser sets its own.
pub const STEALTH_UA_NONE: &'static str = "";

/// The browser at `chrome_path` is CloakBrowser (the path names it).
pub open spec fn is_cloakbrowser(chrome_path: Option<Seq<char>>) -> bool {
    match chrome_path {
        Some(p) => contains(utf8(p), utf8("cloakbrowser"@)),
        None => false,
    }
}

/// The user-agent override for a login browser: none for CloakBrowser, the
/// stealth user agent otherwise.
pub fn stealth_ua(chrome_path: &Option<String>) -> (ua: &'static str)
    ensures
        ua@ == if is_cloakbrowser(
            match chrome_path {
                Some(p) => Some(p@),
                None => None,
            },
        ) {
            STEALTH_UA_NONE@
        } else {
            STEALTH_UA@
        },
{
    let cloak = match chrome_path {
        Some(p) => contains_str(p.as_str(), "cloakbrowser"),
        None => false,
    };
    if cloak {
        STEALTH_UA_NONE
    } else {
        STEALTH_UA
    }
}

/// Settings for launching Chrome for a login flow.
#[derive(Debug, Clone)]
pub struct ChromeLoginConfig {
    pub proxy_url: Option<String>,
    pub chrome_path: Option<String>,
    /// Directory for screenshots (a file-system path).
    pub screenshot_dir: String,
    pub screenshot_on_error: bool,
    /// Launch in incognito mode for ephemeral sessions (no cookie persistence).
    pub incognito: bool,
}

impl Default for ChromeLoginConfig {
    fn default() -> (c: ChromeLoginConfig)
        ensures
            c.proxy_url is None,
            c.chrome_path is None,
            c.screenshot_dir@ == "/tmp/ox-browser/twitter-login"@,
            c.screenshot_on_error,
            c.incognito,
    {
        ChromeLoginConfig {
            proxy_url: None,
            chrome_path: None,
            screenshot_dir: "/tmp/ox-browser/twitter-login".to_owned(),
            screenshot_on_error: true,
            incognito: true,
        }
    }
}

// ---------------------------------------------------------------------------
// Chrome command lines
// ---------------------------------------------------------------------------

/// The characters of some strings.
pub open spec fn args_view(v: Seq<String>) -> Seq<Seq<char>> {
    v.map_values(|a: String| a@)
}

/// The chrome path names CloakBrowser.
pub open spec fn path_is_cloak(p: Option<String>) -> bool {
    match p {
        Some(s) => contains(utf8(s@), utf8("cloakbrowser"@)),
        None => false,
    }
}

/// The `--proxy-server` flag for an optional proxy.
pub open spec fn proxy_args(proxy: Option<Seq<char>>) -> Seq<Seq<char>> {
    match proxy {
        Some(p) => seq!["--proxy-server="@ + p],
        None => Seq::empty(),
    }
}

/// The command-line flags of a login browser: the common flags, its
/// profile directory, `--incognito` when asked for, the CloakBrowser
/// fingerprint flags when the chrome path names CloakBrowser, and the proxy.
pub open spec fn session_args(c: ChromeLoginConfig, data_dir: Seq<char>) -> Seq<Seq<char>> {
    seq![
        "--disable-gpu"@,
        "--disable-dev-shm-usage"@,
        "--no-first-run"@,
        "--disable-blink-features=AutomationControlled"@,
        "--window-size=1920,1080"@,
        "--lang=en-US,en"@,
        "--user-data-dir="@ + data_dir,
    ] + (if c.incognito {
        seq!["--incognito"@]
    } else {
        Seq::empty()
    }) + (if path_is_cloak(c.chrome_path) {
        seq![
            "--fingerprint=79849"@,
            "--fingerprint-platform=windows"@,
            "--fingerprint-gpu-vendor=Google Inc. (NVIDIA)"@,
            "--fingerprint-gpu-renderer=ANGLE (NVIDIA, NVIDIA GeForce RTX 3070 (0x00002484) Direct3D11 vs_5_0 ps_5_0, D3D11)"@,
        ]
    } else {
        Seq::empty()
    }) + proxy_args(
        match c.proxy_url {
            Some(p) => Some(p@),
            None => None,
        },
    )
}

/// The command-line flags of a pooled browser: the common flags, the
/// CloakBrowser fingerprint flags when the chrome path names CloakBrowser,
/// and the proxy of the pool the browser serves.
pub open spec fn pool_args(c: ChromeLoginConfig, proxy: Option<Seq<char>>) -> Seq<Seq<char>> {
    seq![
        "--disable-gpu"@,
        "--disable-dev-shm-usage"@,
        "--no-first-run"@,
        "--disable-setuid-sandbox"@,
        "--disable-extensions"@,
        "--disable-background-timer-throttling"@,
        "--disable-renderer-backgrounding"@,
        "--disable-features=BackForwardCache"@,
        "--disable-blink-features=AutomationControlled"@,
        "--window-size=1920,1080"@,
        "--lang=en-US,en"@,
        "--remote-debugging-port=0"@,
        "--js-flags=--max-old-space-size=512"@,
    ] + (if path_is_cloak(c.chrome_path) {
        seq!["--fingerprint=79849"@, "--fingerprint-platform=windows"@]
    } else {
        Seq::empty()
    }) + proxy_args(proxy)
}

fn push_arg(args: &mut Vec<String>, a: &str)
    ensures
        args_view(final(args)@) == args_view(old(args)@).push(a@),
{
    let ghost before = args@;
    args.push(String::from_str(a));
    assert(args_view(args@) =~= args_view(before).push(a@));
}

fn is_cloak_path(p: &Option<String>) -> (r: bool)
    ensures
        r == path_is_cloak(*p),
{
    match p {
        Some(s) => contains_str(s.as_str(), "cloakbrowser"),
        None => false,
    }
}

fn push_proxy_arg(args: &mut Vec<String>, proxy: Option<&str>)
    ensures
        args_view(final(args)@) == args_view(old(args)@) + proxy_args(
            match proxy {
                Some(p) => Some(p@),
                None => None,
            },
        ),
{
    let ghost before = args@;
    if let Some(p) = proxy {
        let mut a = String::from_str("--proxy-server=");
        a.append(p);
        args.push(a);
        assert(args_view(args@) =~= args_view(before) + proxy_args(Some(p@)));
    } else {
        assert(args_view(args@) =~= args_view(before) + Seq::<Seq<char>>::empty());
    }
}

/// The flags a login browser is launched with; its profile lives in
/// `data_dir`.
pub fn session_launch_args(config: &ChromeLoginConfig, data_dir: &str) -> (r: Vec<String>)
    ensures
        args_view(r@) == session_args(*config, data_dir@),
{
    let mut args: Vec<String> = Vec::new();
    push_arg(&mut args, "--disable-gpu");
    push_arg(&mut args, "--disable-dev-shm-usage");
    push_arg(&mut args, "--no-first-run");
    push_arg(&mut args, "--disable-blink-features=AutomationControlled");
    push_arg(&mut args, "--window-size=1920,1080");
    push_arg(&mut args, "--lang=en-US,en");
    let mut dir = String::from_str("--user-data-dir=");
    dir.append(data_dir);
    let ghost before = args@;
    args.push(dir);
    assert(args_view(args@) =~= args_view(before).push("--user-data-dir="@ + data_dir@));
    let ghost base = args_view(args@);
    if config.incognito {
        push_arg(&mut args, "--incognito");
    }
    let ghost with_incognito = args_view(args@);
    if is_cloak_path(&config.chrome_path) {
        push_arg(&mut args, "--fingerprint=79849");
        push_arg(&mut args, "--fingerprint-platform=windows");
        push_arg(&mut args, "--fingerprint-gpu-vendor=Google Inc. (NVIDIA)");
        push_arg(
            &mut args,
            "--fingerprint-gpu-renderer=ANGLE (NVIDIA, NVIDIA GeForce RTX 3070 (0x00002484) Direct3D11 vs_5_0 ps_5_0, D3D11)",
        );
    }
    let ghost with_cloak = args_view(args@);
    let proxy: Option<&str> = match &config.proxy_url {
        Some(p) => Some(p.as_str()),
        None => None,
    };
    push_proxy_arg(&mut args, proxy);
    assert(args_view(args@) =~= session_args(*config, data_dir@));
    args
}

/// The flags a pooled browser serving `proxy` is launched with.
pub fn pool_launch_args(config: &ChromeLoginConfig, proxy: Option<&str>) -> (r: Vec<String>)
    ensures
        args_view(r@) == pool_args(
            *config,
            match proxy {
                Some(p) => Some(p@),
                None => None,
            },
        ),
{
    let mut args: Vec<String> = Vec::new();
    push_arg(&mut args, "--disable-gpu");
    push_arg(&mut args, "--disable-dev-shm-usage");
    push_arg(&mut args, "--no-first-run");
    push_arg(&mut args, "--disable-setuid-sandbox");
    push_arg(&mut args, "--disable-extensions");
    push_arg(&mut args, "--disable-background-timer-throttling");
    push_arg(&mut args, "--disable-renderer-backgrounding");
    push_arg(&mut args, "--disable-features=BackForwardCache");
    push_arg(&mut args, "--disable-blink-features=AutomationControlled");
    push_arg(&mut args, "--window-size=1920,1080");
    push_arg(&mut args, "--lang=en-US,en");
    push_arg(&mut args, "--remote-debugging-port=0");
    push_arg(&mut args, "--js-flags=--max-old-space-size=512");
    if is_cloak_path(&config.chrome_path) {
        push_arg(&mut args, "--fingerprint=79849");
        push_arg(&mut args, "--fingerprint-platform=windows");
    }
    push_proxy_arg(&mut args, proxy);
    assert(args_view(args@) =~= pool_args(
        *config,
        match proxy {
            Some(p) => Some(p@),
            None => None,
        },
    ));
    args
}

/// The profile directory of a login browser, named by a random number
/// (`/tmp/ox-chrome-` and sixteen hex digits).
pub fn chrome_data_dir(n: u64) -> (r: String)
    ensures
        r@ == "/tmp/ox-chrome-"@ + crate::session::hex_digits(n as nat, 16),
{
    let mut r = String::from_str("/tmp/ox-chrome-");
    let h = crate::session::hex16(n);
    r.append(h.as_str());
    r
}

/// A fresh profile directory for a login browser, named by a random number.
pub fn new_chrome_data_dir() -> (r: String)
    ensures
        exists|n: u64| r@ == "/tmp/ox-chrome-"@ + crate::session::hex_digits(n as nat, 16),
{
    let n = crate::session::random_u64();
    chrome_data_dir(n)
}

// ---------------------------------------------------------------------------
// Which session a run uses, and whether it survives
// ---------------------------------------------------------------------------

/// Whether a run ends its session.
pub fn has_destroy_action(actions: &Vec<ChromeAction>) -> (r: bool)
    ensures
        r == exists|i: int| 0 <= i < actions@.len() && #[trigger] actions@[i] is DestroySession,
{
    let mut i: usize = 0;
    while i < actions.len()
        invariant
            i <= actions@.len(),
            forall|j: int| 0 <= j < i ==> !(#[trigger] actions@[j] is DestroySession),
        decreases actions@.len() - i,
    {
        if let ChromeAction::DestroySession = &actions[i] {
            assert(actions@[i as int] is DestroySession);
            return true;
        }
        i += 1;
    }
    false
}

/// Where a run happens.
#[derive(Debug)]
pub enum SessionMode {
    /// A new persistent session (the request's session id is `new`).
    New,
    /// The persistent session with this id.
    Existing(String),
    /// A one-shot tab, closed after the run (no session id).
    Ephemeral,
}

/// The session a request asks for.
pub fn session_mode(session_id: &Option<String>) -> (m: SessionMode)
    ensures
        match session_id {
            None => m is Ephemeral,
            Some(s) => if s@ == "new"@ {
                m is New
            } else {
                m matches SessionMode::Existing(id) && id@ == s@
            },
        },
{
    match session_id {
        None => SessionMode::Ephemeral,
        Some(s) => if str_eq(s.as_str(), "new") {
            SessionMode::New
        } else {
            SessionMode::Existing(s.clone())
        },
    }
}

impl InteractResponse {
    /// Settles a persistent session after its run: a run that asked to end
    /// it, or that failed, ends it (the response names no session);
    /// otherwise the response names the session so it can be reused.
    /// Returns whether the session must be destroyed.
    pub fn finalize_session(&mut self, session_id: &str, has_destroy: bool) -> (destroy: bool)
        ensures
            destroy == (has_destroy || old(self).error is Some),
            destroy ==> final(self).session_id is None,
            !destroy ==> (final(self).session_id matches Some(s) && s@ == session_id@),
            final(self).status == old(self).status,
            final(self).error == old(self).error,
            final(self).screenshots == old(self).screenshots,
            final(self).evaluations == old(self).evaluations,
            final(self).snapshots == old(self).snapshots,
            final(self).cookies == old(self).cookies,
            final(self).final_url == old(self).final_url,
            final(self).network_log == old(self).network_log,
            final(self).console_log == old(self).console_log,
    {
        if has_destroy || self.error.is_some() {
            self.session_id = None;
            true
        } else {
            self.session_id = Some(session_id.to_string());
            false
        }
    }
}

} // verus!
