//! Logging configuration: a global threshold, per-subtree levels, per-subtree
//! console suppression and file handlers, and the decision of whether (and
//! where) a message is emitted. Rendering the line with the simulation time
//! and writing it out is the caller's part.

use vstd::prelude::*;

use crate::text::to_string;

verus! {

/// Message severity, in increasing order; `Off` is above every real level.
#[derive(Copy, Clone, Debug, PartialEq, Eq, Structural)]
pub enum Level {
    Debug,
    Info,
    Warning,
    Error,
    Critical,
    Off,
}

/// The position of a level in severity order.
pub open spec fn rank(l: Level) -> nat {
    match l {
        Level::Debug => 0,
        Level::Info => 1,
        Level::Warning => 2,
        Level::Error => 3,
        Level::Critical => 4,
        Level::Off => 5,
    }
}

fn rank_exec(l: Level) -> (r: u8)
    ensures
        r == rank(l),
{
    match l {
        Level::Debug => 0,
        Level::Info => 1,
        Level::Warning => 2,
        Level::Error => 3,
        Level::Critical => 4,
        Level::Off => 5,
    }
}

/// The levels from least to most severe, as the documentation orders them.
pub open spec fn severity_order() -> Seq<Level> {
    seq![Level::Debug, Level::Info, Level::Warning, Level::Error, Level::Critical, Level::Off]
}

/// Severity strictly increases along Debug, Info, Warning, Error, Critical,
/// Off, and every level has its place in that order.
pub proof fn law_severity_increases(i: int, j: int, l: Level)
    requires
        0 <= i < j < 6,
    ensures
        rank(severity_order()[i]) < rank(severity_order()[j]),
        exists|k: int| 0 <= k < 6 && #[trigger] severity_order()[k] == l,
{
    let o = severity_order();
    match l {
        Level::Debug => assert(o[0] == l),
        Level::Info => assert(o[1] == l),
        Level::Warning => assert(o[2] == l),
        Level::Error => assert(o[3] == l),
        Level::Critical => assert(o[4] == l),
        Level::Off => assert(o[5] == l),
    }
}

/// A message passes a threshold exactly when it stands at or after the
/// threshold in severity order: an Error threshold lets Critical through
/// and a Critical threshold stops Error.
pub proof fn law_threshold_passes_the_more_severe(message: int, threshold: int)
    requires
        0 <= message < 6,
        0 <= threshold < 6,
    ensures
        (rank(severity_order()[message]) >= rank(severity_order()[threshold])) <==> threshold <= message,
{
    if threshold < message {
        law_severity_increases(threshold, message, Level::Off);
    } else if message < threshold {
        law_severity_increases(message, threshold, Level::Off);
    }
}

/// Is `a` at least as severe as `b`?
pub fn at_least(a: Level, b: Level) -> (r: bool)
    ensures
        r == (rank(a) >= rank(b)),
{
    rank_exec(a) >= rank_exec(b)
}

impl Level {
    /// The level's name as printed in a log line.
    pub fn as_str(self) -> (s: &'static str)
        ensures
            s@ == match self {
                Level::Debug => "DEBUG"@,
                Level::Info => "INFO"@,
                Level::Warning => "WARNING"@,
                Level::Error => "ERROR"@,
                Level::Critical => "CRITICAL"@,
                Level::Off => "OFF"@,
            },
    {
        match self {
            Level::Debug => "DEBUG",
            Level::Info => "INFO",
            Level::Warning => "WARNING",
            Level::Error => "ERROR",
            Level::Critical => "CRITICAL",
            Level::Off => "OFF",
        }
    }
}

/// Does `path` name the component `prefix` or one below it? `a.b` is under
/// `a`, `ab` is not: the dot matters.
pub open spec fn spec_under(path: Seq<char>, prefix: Seq<char>) -> bool {
    path == prefix || (path.len() > prefix.len() && path.subrange(0, prefix.len() as int) == prefix
        && path[prefix.len() as int] == '.')
}

pub fn under(path: &str, prefix: &str) -> (b: bool)
    ensures
        b == spec_under(path@, prefix@),
{
    let p = crate::text::chars_of(path);
    let q = crate::text::chars_of(prefix);
    if p.len() < q.len() {
        return false;
    }
    let mut i: usize = 0;
    while i < q.len()
        invariant
            p@ == path@,
            q@ == prefix@,
            q.len() <= p.len(),
            i <= q.len(),
            forall|j: int| 0 <= j < i ==> p@[j] == q@[j],
        decreases q.len() - i,
    {
        if p[i] != q[i] {
            assert(path@.subrange(0, prefix@.len() as int)[i as int] != prefix@[i as int]);
            return false;
        }
        i = i + 1;
    }
    assert(path@.subrange(0, prefix@.len() as int) =~= prefix@);
    if p.len() == q.len() {
        assert(path@ =~= prefix@);
        true
    } else {
        p[q.len()] == '.'
    }
}

/// The entry with the longest prefix covering `path` among `entries`; on a
/// tie, the later entry.
pub open spec fn longest_match<V>(entries: Seq<(Seq<char>, V)>, path: Seq<char>) -> Option<(Seq<char>, V)>
    decreases entries.len(),
{
    if entries.len() == 0 {
        None
    } else {
        let best = longest_match(entries.drop_last(), path);
        let e = entries.last();
        if spec_under(path, e.0) && (match best {
            Some(b) => e.0.len() >= b.0.len(),
            None => true,
        }) {
            Some(e)
        } else {
            best
        }
    }
}

/// `entries` with every entry for `prefix` removed, then `(prefix, v)`
/// appended: setting a subtree replaces its earlier setting.
pub open spec fn replace_entry<V>(entries: Seq<(Seq<char>, V)>, prefix: Seq<char>, v: V) -> Seq<(Seq<char>, V)> {
    entries.filter(|e: (Seq<char>, V)| e.0 != prefix).push((prefix, v))
}

/// Every message file handler, as the caller numbers them.
pub type FileId = usize;

/// The logging configuration of one test.
pub struct LogConfig {
    threshold: Level,
    target_levels: Vec<(String, Level)>,
    target_console: Vec<(String, bool)>,
    target_files: Vec<(String, FileId)>,
    log_file: Option<FileId>,
}

impl LogConfig {
    pub closed spec fn threshold(&self) -> Level {
        self.threshold
    }

    pub closed spec fn target_levels(&self) -> Seq<(Seq<char>, Level)> {
        self.target_levels@.map_values(|e: (String, Level)| (e.0@, e.1))
    }

    pub closed spec fn target_console(&self) -> Seq<(Seq<char>, bool)> {
        self.target_console@.map_values(|e: (String, bool)| (e.0@, e.1))
    }

    pub closed spec fn target_files(&self) -> Seq<(Seq<char>, FileId)> {
        self.target_files@.map_values(|e: (String, FileId)| (e.0@, e.1))
    }

    pub closed spec fn log_file(&self) -> Option<FileId> {
        self.log_file
    }

    /// The default: threshold `Info`, no subtree settings, no files.
    pub fn new() -> (c: LogConfig)
        ensures
            c.threshold() == Level::Info,
            c.target_levels() == Seq::<(Seq<char>, Level)>::empty(),
            c.target_console() == Seq::<(Seq<char>, bool)>::empty(),
            c.target_files() == Seq::<(Seq<char>, FileId)>::empty(),
            c.log_file() is None,
    {
        let c = LogConfig {
            threshold: Level::Info,
            target_levels: Vec::new(),
            target_console: Vec::new(),
            target_files: Vec::new(),
            log_file: None,
        };
        assert(c.target_levels() =~= Seq::<(Seq<char>, Level)>::empty());
        assert(c.target_console() =~= Seq::<(Seq<char>, bool)>::empty());
        assert(c.target_files() =~= Seq::<(Seq<char>, FileId)>::empty());
        c
    }
}

/// Set the global threshold.
pub fn set_level(cfg: &mut LogConfig, l: Level)
    ensures
        final(cfg).threshold() == l,
        final(cfg).target_levels() == old(cfg).target_levels(),
        final(cfg).target_console() == old(cfg).target_console(),
        final(cfg).target_files() == old(cfg).target_files(),
        final(cfg).log_file() == old(cfg).log_file(),
{
    cfg.threshold = l;
}

/// Is a message without a path, at `level`, emitted? Only the global
/// threshold applies to it.
pub fn log(cfg: &LogConfig, level: Level) -> (emitted: bool)
    ensures
        emitted == (rank(level) >= rank(cfg.threshold())),
{
    at_least(level, cfg.threshold)
}

pub fn debug(cfg: &LogConfig) -> (emitted: bool)
    ensures
        emitted == (rank(Level::Debug) >= rank(cfg.threshold())),
{
    log(cfg, Level::Debug)
}

pub fn info(cfg: &LogConfig) -> (emitted: bool)
    ensures
        emitted == (rank(Level::Info) >= rank(cfg.threshold())),
{
    log(cfg, Level::Info)
}

pub fn warning(cfg: &LogConfig) -> (emitted: bool)
    ensures
        emitted == (rank(Level::Warning) >= rank(cfg.threshold())),
{
    log(cfg, Level::Warning)
}

pub fn error(cfg: &LogConfig) -> (emitted: bool)
    ensures
        emitted == (rank(Level::Error) >= rank(cfg.threshold())),
{
    log(cfg, Level::Error)
}

pub fn critical(cfg: &LogConfig) -> (emitted: bool)
    ensures
        emitted == (rank(Level::Critical) >= rank(cfg.threshold())),
{
    log(cfg, Level::Critical)
}

/// Removes every entry keyed `prefix`, keeping the others in order.
fn remove_key<V: Copy>(v: &mut Vec<(String, V)>, prefix: &str)
    ensures
        final(v)@.map_values(|e: (String, V)| (e.0@, e.1)) == old(v)@.map_values(
            |e: (String, V)| (e.0@, e.1),
        ).filter(|e: (Seq<char>, V)| e.0 != prefix@),
{
    let ghost orig = v@.map_values(|e: (String, V)| (e.0@, e.1));
    let mut kept: Vec<(String, V)> = Vec::new();
    let mut i: usize = 0;
    while i < v.len()
        invariant
            orig == v@.map_values(|e: (String, V)| (e.0@, e.1)),
            i <= v.len(),
            kept@.map_values(|e: (String, V)| (e.0@, e.1)) == orig.subrange(0, i as int).filter(
                |e: (Seq<char>, V)| e.0 != prefix@,
            ),
        decreases v.len() - i,
    {
        proof {
            assert(orig.subrange(0, i + 1).drop_last() =~= orig.subrange(0, i as int));
            assert(orig.subrange(0, i + 1).last() == (v@[i as int].0@, v@[i as int].1));
            reveal_with_fuel(Seq::filter, 1);
        }
        let same = crate::text::str_eq(v[i].0.as_str(), prefix);
        let ghost kept_before = kept@;
        if !same {
            let key = v[i].0.clone();
            kept.push((key, v[i].1));
            assert(kept@.map_values(|x: (String, V)| (x.0@, x.1)) =~= kept_before.map_values(
                |x: (String, V)| (x.0@, x.1),
            ).push((v@[i as int].0@, v@[i as int].1)));
        }
        i = i + 1;
    }
    assert(orig.subrange(0, i as int) =~= orig);
    *v = kept;
}

/// Set the level for the subtree at `path_prefix`, replacing any earlier
/// setting for that subtree.
pub fn set_level_for(cfg: &mut LogConfig, path_prefix: &str, l: Level)
    ensures
        final(cfg).target_levels() == replace_entry(old(cfg).target_levels(), path_prefix@, l),
        final(cfg).threshold() == old(cfg).threshold(),
        final(cfg).target_console() == old(cfg).target_console(),
        final(cfg).target_files() == old(cfg).target_files(),
        final(cfg).log_file() == old(cfg).log_file(),
{
    remove_key(&mut cfg.target_levels, path_prefix);
    let ghost before = cfg.target_levels();
    cfg.target_levels.push((to_string(path_prefix), l));
    assert(cfg.target_levels() =~= before.push((path_prefix@, l)));
}

/// Turn console output on or off for the subtree at `path_prefix`.
pub fn set_console_for(cfg: &mut LogConfig, path_prefix: &str, enabled: bool)
    ensures
        final(cfg).target_console() == replace_entry(
            old(cfg).target_console(),
            path_prefix@,
            enabled,
        ),
        final(cfg).threshold() == old(cfg).threshold(),
        final(cfg).target_levels() == old(cfg).target_levels(),
        final(cfg).target_files() == old(cfg).target_files(),
        final(cfg).log_file() == old(cfg).log_file(),
{
    remove_key(&mut cfg.target_console, path_prefix);
    let ghost before = cfg.target_console();
    cfg.target_console.push((to_string(path_prefix), enabled));
    assert(cfg.target_console() =~= before.push((path_prefix@, enabled)));
}

/// Also send every message from the subtree at `path_prefix` to `file`.
pub fn add_file_for(cfg: &mut LogConfig, path_prefix: &str, file: FileId)
    ensures
        final(cfg).target_files() == old(cfg).target_files().push((path_prefix@, file)),
        final(cfg).threshold() == old(cfg).threshold(),
        final(cfg).target_levels() == old(cfg).target_levels(),
        final(cfg).target_console() == old(cfg).target_console(),
        final(cfg).log_file() == old(cfg).log_file(),
{
    let ghost before = cfg.target_files();
    cfg.target_files.push((to_string(path_prefix), file));
    assert(cfg.target_files() =~= before.push((path_prefix@, file)));
}

/// Also write every emitted message to `file`.
pub fn log_to_file(cfg: &mut LogConfig, file: FileId)
    ensures
        final(cfg).log_file() == Some(file),
        final(cfg).threshold() == old(cfg).threshold(),
        final(cfg).target_levels() == old(cfg).target_levels(),
        final(cfg).target_console() == old(cfg).target_console(),
        final(cfg).target_files() == old(cfg).target_files(),
{
    cfg.log_file = Some(file);
}

/// The global log file, which also receives messages that have no path.
pub fn global_log_file(cfg: &LogConfig) -> (f: Option<FileId>)
    ensures
        f == cfg.log_file(),
{
    cfg.log_file
}

/// Stop writing to the global log file.
pub fn remove_log_file(cfg: &mut LogConfig)
    ensures
        final(cfg).log_file() is None,
        final(cfg).threshold() == old(cfg).threshold(),
        final(cfg).target_levels() == old(cfg).target_levels(),
        final(cfg).target_console() == old(cfg).target_console(),
        final(cfg).target_files() == old(cfg).target_files(),
{
    cfg.log_file = None;
}

/// Drop every setting: the state of a fresh test.
pub fn reset_config(cfg: &mut LogConfig)
    ensures
        final(cfg).threshold() == Level::Info,
        final(cfg).target_levels() == Seq::<(Seq<char>, Level)>::empty(),
        final(cfg).target_console() == Seq::<(Seq<char>, bool)>::empty(),
        final(cfg).target_files() == Seq::<(Seq<char>, FileId)>::empty(),
        final(cfg).log_file() is None,
{
    *cfg = LogConfig::new();
}

/// The entry with the longest prefix covering `path`.
fn find_longest<V: Copy>(v: &Vec<(String, V)>, path: &str) -> (r: Option<V>)
    ensures
        r == (match longest_match(v@.map_values(|e: (String, V)| (e.0@, e.1)), path@) {
            Some(e) => Some(e.1),
            None => None::<V>,
        }),
{
    let ghost all = v@.map_values(|e: (String, V)| (e.0@, e.1));
    let mut best: Option<V> = None;
    let mut best_len: usize = 0;
    let mut i: usize = 0;
    while i < v.len()
        invariant
            all == v@.map_values(|e: (String, V)| (e.0@, e.1)),
            i <= v.len(),
            match longest_match(all.subrange(0, i as int), path@) {
                Some(e) => best == Some(e.1) && best_len == e.0.len(),
                None => best is None,
            },
        decreases v.len() - i,
    {
        proof {
            assert(all.subrange(0, i + 1).drop_last() =~= all.subrange(0, i as int));
            assert(all.subrange(0, i + 1).last() == (v@[i as int].0@, v@[i as int].1));
        }
        let p = v[i].0.as_str();
        let n = p.unicode_len();
        if under(path, p) && (best.is_none() || n >= best_len) {
            best = Some(v[i].1);
            best_len = n;
        }
        i = i + 1;
    }
    assert(all.subrange(0, v.len() as int) =~= all);
    best
}

/// Is console output on for `path`? The longest matching subtree setting
/// decides; with none, it is on.
pub fn console_enabled_for(cfg: &LogConfig, path: &str) -> (on: bool)
    ensures
        on == (match longest_match(cfg.target_console(), path@) {
            Some(e) => e.1,
            None => true,
        }),
{
    match find_longest(&cfg.target_console, path) {
        Some(b) => b,
        None => true,
    }
}

/// The files a message from `path` is written to: every subtree handler
/// covering it, in the order they were added, then the global log file.
pub fn files_for(cfg: &LogConfig, path: &str) -> (files: Vec<FileId>)
    ensures
        files@ == cfg.target_files().filter(|e: (Seq<char>, FileId)| spec_under(path@, e.0)).map_values(
            |e: (Seq<char>, FileId)| e.1,
        ) + (match cfg.log_file() {
            Some(f) => seq![f],
            None => Seq::<FileId>::empty(),
        }),
{
    let ghost all = cfg.target_files();
    let mut out: Vec<FileId> = Vec::new();
    let mut i: usize = 0;
    while i < cfg.target_files.len()
        invariant
            all == cfg.target_files(),
            i <= cfg.target_files.len(),
            out@ == all.subrange(0, i as int).filter(|e: (Seq<char>, FileId)| spec_under(path@, e.0)).map_values(
                |e: (Seq<char>, FileId)| e.1,
            ),
        decreases cfg.target_files.len() - i,
    {
        proof {
            assert(all.subrange(0, i + 1).drop_last() =~= all.subrange(0, i as int));
            reveal_with_fuel(Seq::filter, 1);
        }
        if under(path, cfg.target_files[i].0.as_str()) {
            out.push(cfg.target_files[i].1);
        }
        proof {
            let f = all.subrange(0, i + 1).filter(|e: (Seq<char>, FileId)| spec_under(path@, e.0));
            let g = all.subrange(0, i as int).filter(|e: (Seq<char>, FileId)| spec_under(path@, e.0));
            assert(f.map_values(|e: (Seq<char>, FileId)| e.1) =~= out@) by {
                if spec_under(path@, all[i as int].0) {
                    assert(f =~= g.push(all[i as int]));
                } else {
                    assert(f =~= g);
                }
            }
        }
        i = i + 1;
    }
    assert(all.subrange(0, i as int) =~= all);
    let ghost front = out@;
    match cfg.log_file {
        Some(f) => {
            out.push(f);
            assert(out@ =~= front + seq![f]);
        },
        None => {
            assert(out@ =~= front + Seq::<FileId>::empty());
        },
    }
    out
}

/// A logger for one component, named by the path the walk derived.
pub struct Logger {
    path: String,
}

impl Logger {
    pub closed spec fn spec_path(&self) -> Seq<char> {
        self.path@
    }

    pub fn new(path: &str) -> (l: Logger)
        ensures
            l.spec_path() == path@,
    {
        Logger { path: to_string(path) }
    }

    pub fn path(&self) -> (p: &str)
        ensures
            p@ == self.spec_path(),
    {
        self.path.as_str()
    }

    /// Is a message at `level` from this logger emitted? The longest
    /// subtree setting covering its path decides; without one, the global
    /// threshold does.
    pub fn enabled(&self, cfg: &LogConfig, level: Level) -> (b: bool)
        ensures
            b == (match longest_match(cfg.target_levels(), self.spec_path()) {
                Some(e) => rank(level) >= rank(e.1),
                None => rank(level) >= rank(cfg.threshold()),
            }),
    {
        match find_longest(&cfg.target_levels, self.path.as_str()) {
            Some(l) => at_least(level, l),
            None => at_least(level, cfg.threshold),
        }
    }

    /// Is a message at `level` from this logger emitted (see
    /// [`Logger::enabled`])? Where it goes is [`console_enabled_for`] and
    /// [`files_for`] at this logger's path.
    pub fn log(&self, cfg: &LogConfig, level: Level) -> (b: bool)
        ensures
            b == (match longest_match(cfg.target_levels(), self.spec_path()) {
                Some(e) => rank(level) >= rank(e.1),
                None => rank(level) >= rank(cfg.threshold()),
            }),
    {
        self.enabled(cfg, level)
    }

    pub fn debug(&self, cfg: &LogConfig) -> (b: bool)
        ensures
            b == (match longest_match(cfg.target_levels(), self.spec_path()) {
                Some(e) => rank(Level::Debug) >= rank(e.1),
                None => rank(Level::Debug) >= rank(cfg.threshold()),
            }),
    {
        self.log(cfg, Level::Debug)
    }

    pub fn info(&self, cfg: &LogConfig) -> (b: bool)
        ensures
            b == (match longest_match(cfg.target_levels(), self.spec_path()) {
                Some(e) => rank(Level::Info) >= rank(e.1),
                None => rank(Level::Info) >= rank(cfg.threshold()),
            }),
    {
        self.log(cfg, Level::Info)
    }

    pub fn warning(&self, cfg: &LogConfig) -> (b: bool)
        ensures
            b == (match longest_match(cfg.target_levels(), self.spec_path()) {
                Some(e) => rank(Level::Warning) >= rank(e.1),
                None => rank(Level::Warning) >= rank(cfg.threshold()),
            }),
    {
        self.log(cfg, Level::Warning)
    }

    pub fn error(&self, cfg: &LogConfig) -> (b: bool)
        ensures
            b == (match longest_match(cfg.target_levels(), self.spec_path()) {
                Some(e) => rank(Level::Error) >= rank(e.1),
                None => rank(Level::Error) >= rank(cfg.threshold()),
            }),
    {
        self.log(cfg, Level::Error)
    }

    pub fn critical(&self, cfg: &LogConfig) -> (b: bool)
        ensures
            b == (match longest_match(cfg.target_levels(), self.spec_path()) {
                Some(e) => rank(Level::Critical) >= rank(e.1),
                None => rank(Level::Critical) >= rank(cfg.threshold()),
            }),
    {
        self.log(cfg, Level::Critical)
    }
}

} // verus!
