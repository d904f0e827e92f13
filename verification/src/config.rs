//! The settings, their defaults and the checks made on a loaded file.

use vstd::prelude::*;
use crate::text::push_decimal;

verus! {

#[derive(Debug, Clone)]
pub struct Config {
    pub bbs: BbsConfig,
    pub limits: Limits,
    pub tcp: TcpConfig,
    pub modem: Vec<ModemConfig>,
}

#[derive(Debug, Clone)]
pub struct BbsConfig {
    /// The name of the host.
    pub name: String,
    /// The SQLite database.
    pub db: String,
    /// Where banner.txt and goodbye.txt are.
    pub text_dir: String,
    /// The most lines (1 to 128).
    pub max_lines: u16,
    pub allow_guest: bool,
    /// Record what is said in chat rooms.
    pub chat_log: bool,
    /// The log file.
    pub log_file: String,
    /// Where the file library is kept.
    pub files_dir: String,
    /// The largest file that can be uploaded (KB).
    pub max_upload_kb: u64,
}

#[derive(Debug, Clone)]
pub struct Limits {
    /// Seconds without input before hanging up.
    pub idle_timeout_secs: u64,
    /// The longest session (minutes).
    pub max_session_mins: u64,
    pub guest_session_mins: u64,
    /// How many wrong passwords are allowed.
    pub login_attempts: u32,
}

#[derive(Debug, Clone)]
pub struct TcpConfig {
    /// Addresses to take telnet connections on; by default every network
    /// of the machine, port 5656.
    pub listen: Vec<String>,
}

#[derive(Debug, Clone)]
pub struct ModemConfig {
    /// The line number it takes (1 to max_lines).
    pub line: u16,
    pub path: String,
    /// DTE speed.
    pub baud: u32,
    /// none / hardware / software
    pub flow: String,
    /// Initialisation commands (each waits for OK).
    pub init: Vec<String>,
    /// manual: ATA on RING / auto: the modem answers itself (S0=1).
    pub answer: String,
    /// With manual answering, the RING to answer on.
    pub rings: u32,
    pub connect_timeout_secs: u64,
    /// The wait from CONNECT to the login screen.
    pub connect_delay_ms: u64,
    /// How a lost carrier is seen: dcd / text ("NO CARRIER") / both
    pub carrier: String,
    /// How to hang up: dtr / escape (+++ATH0)
    pub hangup: String,
}

impl Default for BbsConfig {
    fn default() -> (r: BbsConfig)
        ensures
            r.name@ == "NULL-BBS"@,
            r.db@ == "null-bbs.db"@,
            r.text_dir@ == "text"@,
            r.max_lines == 128,
            r.allow_guest,
            !r.chat_log,
            r.log_file@ == "null-bbs.log"@,
            r.files_dir@ == "files"@,
            r.max_upload_kb == 4096,
    {
        BbsConfig {
            name: String::from_str("NULL-BBS"),
            db: String::from_str("null-bbs.db"),
            text_dir: String::from_str("text"),
            max_lines: 128,
            allow_guest: true,
            chat_log: false,
            log_file: String::from_str("null-bbs.log"),
            files_dir: String::from_str("files"),
            max_upload_kb: 4096,
        }
    }
}

impl Default for Limits {
    fn default() -> (r: Limits)
        ensures
            r.idle_timeout_secs == 300,
            r.max_session_mins == 60,
            r.guest_session_mins == 15,
            r.login_attempts == 3,
    {
        Limits { idle_timeout_secs: 300, max_session_mins: 60, guest_session_mins: 15, login_attempts: 3 }
    }
}

impl Default for TcpConfig {
    fn default() -> (r: TcpConfig)
        ensures
            r.listen@.len() == 1,
            r.listen@[0]@ == "0.0.0.0:5656"@,
    {
        let mut listen: Vec<String> = Vec::new();
        listen.push(String::from_str("0.0.0.0:5656"));
        TcpConfig { listen }
    }
}

impl Default for ModemConfig {
    fn default() -> (r: ModemConfig)
        ensures
            r.line == 1,
            r.path@.len() == 0,
            r.baud == 9600,
            r.flow@ == "none"@,
            r.init@.len() == 2,
            r.init@[0]@ == "ATZ"@,
            r.init@[1]@ == "ATE0V1Q0X4&C1&D2S0=0"@,
            r.answer@ == "manual"@,
            r.rings == 1,
            r.connect_timeout_secs == 60,
            r.connect_delay_ms == 500,
            r.carrier@ == "both"@,
            r.hangup@ == "dtr"@,
    {
        let mut init: Vec<String> = Vec::new();
        init.push(String::from_str("ATZ"));
        init.push(String::from_str("ATE0V1Q0X4&C1&D2S0=0"));
        ModemConfig {
            line: 1,
            path: String::new(),
            baud: 9600,
            flow: String::from_str("none"),
            init,
            answer: String::from_str("manual"),
            rings: 1,
            connect_timeout_secs: 60,
            connect_delay_ms: 500,
            carrier: String::from_str("both"),
            hangup: String::from_str("dtr"),
        }
    }
}

impl Default for Config {
    fn default() -> (r: Config)
        ensures
            r.bbs.name@ == "NULL-BBS"@,
            r.bbs.max_lines == 128,
            r.bbs.allow_guest,
            r.limits.idle_timeout_secs == 300,
            r.limits.login_attempts == 3,
            r.tcp.listen@.len() == 1,
            r.tcp.listen@[0]@ == "0.0.0.0:5656"@,
            r.modem@.len() == 0,
    {
        Config { bbs: BbsConfig::default(), limits: Limits::default(), tcp: TcpConfig::default(), modem: Vec::new() }
    }
}

/// `n` limited to `lo..=hi`.
pub open spec fn clamp(n: int, lo: int, hi: int) -> int {
    if n < lo { lo } else if n > hi { hi } else { n }
}

/// The refusal of a modem given a line outside `1..=max`.
pub open spec fn bad_modem_line_text(max: u16, line: u16) -> Seq<char> {
    "modem の line は 1〜"@ + crate::text::decimal(max as nat) + " で指定してください: "@ + crate::text::decimal(line as nat)
}

/// The index of the first modem whose line is outside `1..=max`.
pub open spec fn first_bad_modem(modems: Seq<ModemConfig>, max: u16) -> Option<int>
    decreases modems.len(),
{
    if modems.len() == 0 {
        None
    } else {
        match first_bad_modem(modems.drop_last(), max) {
            Some(i) => Some(i),
            None => if 1 <= modems.last().line <= max { None } else { Some(modems.len() - 1) },
        }
    }
}

impl Config {
    /// A file as read: the number of lines is brought into `1..=128`, and
    /// every modem must take a line within it.
    pub fn validated(self) -> (r: Result<Config, String>)
        ensures
            ({
                let max = clamp(self.bbs.max_lines as int, 1, 128) as u16;
                match first_bad_modem(self.modem@, max) {
                    Some(i) => r matches Err(m) && m@ == bad_modem_line_text(max, self.modem@[i].line),
                    None => r matches Ok(c) && {
                        &&& c.bbs.max_lines == max
                        &&& c.bbs.name == self.bbs.name
                        &&& c.bbs.db == self.bbs.db
                        &&& c.bbs.text_dir == self.bbs.text_dir
                        &&& c.bbs.log_file == self.bbs.log_file
                        &&& c.bbs.files_dir == self.bbs.files_dir
                        &&& c.bbs.allow_guest == self.bbs.allow_guest
                        &&& c.bbs.chat_log == self.bbs.chat_log
                        &&& c.bbs.max_upload_kb == self.bbs.max_upload_kb
                        &&& c.limits == self.limits
                        &&& c.tcp == self.tcp
                        &&& c.modem == self.modem
                    },
                }
            }),
    {
        let mut cfg = self;
        let n = cfg.bbs.max_lines;
        cfg.bbs.max_lines = if n < 1 { 1 } else if n > 128 { 128 } else { n };
        let max = cfg.bbs.max_lines;
        let mut i: usize = 0;
        while i < cfg.modem.len()
            invariant
                i <= cfg.modem@.len(),
                cfg.modem == self.modem,
                max == clamp(self.bbs.max_lines as int, 1, 128),
                first_bad_modem(cfg.modem@.take(i as int), max) is None,
            decreases cfg.modem.len() - i,
        {
            let ghost t = cfg.modem@.take(i + 1);
            assert(t.drop_last() == cfg.modem@.take(i as int));
            assert(t.last() == cfg.modem@[i as int]);
            let line = cfg.modem[i].line;
            if !(1 <= line && line <= max) {
                proof { lemma_first_bad_prefix(cfg.modem@, i + 1, max); }
                let mut m = String::from_str("modem の line は 1〜");
                push_decimal(&mut m, max as u64);
                m.append(" で指定してください: ");
                push_decimal(&mut m, line as u64);
                return Err(m);
            }
            i = i + 1;
        }
        assert(cfg.modem@.take(cfg.modem@.len() as int) == cfg.modem@);
        Ok(cfg)
    }
}

proof fn lemma_first_bad_prefix(s: Seq<ModemConfig>, k: int, max: u16)
    requires
        0 <= k <= s.len(),
        first_bad_modem(s.take(k), max) is Some,
    ensures
        first_bad_modem(s, max) == first_bad_modem(s.take(k), max),
    decreases s.len() - k,
{
    if k < s.len() {
        assert(s.take(k + 1).drop_last() == s.take(k));
        lemma_first_bad_prefix(s, k + 1, max);
    } else {
        assert(s.take(k) == s);
    }
}

impl Limits {
    /// Seconds without input before hanging up: never under half a minute.
    pub fn idle_secs(&self) -> (r: u64)
        ensures
            r == (if self.idle_timeout_secs > 30 { self.idle_timeout_secs } else { 30 }),
    {
        if self.idle_timeout_secs > 30 { self.idle_timeout_secs } else { 30 }
    }

    /// The longest session of a guest or a member, in minutes (0: no limit).
    pub fn session_mins(&self, guest: bool) -> (r: u64)
        ensures
            r == (if guest { self.guest_session_mins } else { self.max_session_mins }),
    {
        if guest { self.guest_session_mins } else { self.max_session_mins }
    }

    /// How many failed logins end the session: at least one.
    pub fn login_failures_allowed(&self) -> (r: u32)
        ensures
            r == (if self.login_attempts > 1 { self.login_attempts } else { 1 }),
    {
        if self.login_attempts > 1 { self.login_attempts } else { 1 }
    }
}

} // verus!
