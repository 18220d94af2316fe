//! The game log: verbosity, output mode and the in-memory log buffer.
//!
//! The logger decides what is printed and what is captured; printing itself
//! is left to the caller, which receives the lines to print.

use vstd::prelude::*;
use vstd::std_specs::slice::spec_slice_iter;
use crate::text::{concat2, concat3, seq_contains, str_contains};

verus! {

/// How much the game prints.
#[derive(Debug, Clone, Copy, PartialEq, Eq, PartialOrd, Ord, Hash, Structural)]
pub enum VerbosityLevel {
    /// No output during the game.
    Silent,
    /// Only the outcome.
    Minimal,
    /// Turns, steps and key actions.
    Normal,
    /// All actions and state changes.
    Verbose,
}

/// The rank of a verbosity level: 0 (silent) to 3 (verbose).
pub open spec fn level_rank(l: VerbosityLevel) -> int {
    match l {
        VerbosityLevel::Silent => 0,
        VerbosityLevel::Minimal => 1,
        VerbosityLevel::Normal => 2,
        VerbosityLevel::Verbose => 3,
    }
}

impl VerbosityLevel {
    /// The rank of the level: 0 (silent) to 3 (verbose).
    pub fn rank(self) -> (r: u8)
        ensures
            r == level_rank(self),
    {
        match self {
            VerbosityLevel::Silent => 0,
            VerbosityLevel::Minimal => 1,
            VerbosityLevel::Normal => 2,
            VerbosityLevel::Verbose => 3,
        }
    }

    /// Whether this level is at most `other`, in the order silent, minimal,
    /// normal, verbose.
    pub fn at_most(self, other: VerbosityLevel) -> (r: bool)
        ensures
            r == (level_rank(self) <= level_rank(other)),
    {
        self.rank() <= other.rank()
    }
}

impl Default for VerbosityLevel {
    /// Normal verbosity.
    fn default() -> (r: Self)
        ensures
            r == VerbosityLevel::Normal,
    {
        VerbosityLevel::Normal
    }
}

/// The format of log messages.
#[derive(Debug, Clone, Copy, PartialEq, Eq, Structural)]
pub enum OutputFormat {
    /// Human-readable text.
    Text,
    /// One JSON object per line.
    Json,
}

impl Default for OutputFormat {
    /// Text.
    fn default() -> (r: Self)
        ensures
            r == OutputFormat::Text,
    {
        OutputFormat::Text
    }
}

/// Where log messages go.
#[derive(Debug, Clone, Copy, PartialEq, Eq, Structural)]
pub enum OutputMode {
    /// Standard output only.
    Stdout,
    /// The in-memory buffer only.
    Memory,
    /// Both.
    Both,
}

impl Default for OutputMode {
    /// Standard output.
    fn default() -> (r: Self)
        ensures
            r == OutputMode::Stdout,
    {
        OutputMode::Stdout
    }
}

/// One captured log message.
#[derive(Debug, Clone)]
pub struct LogEntry {
    pub level: VerbosityLevel,
    pub message: String,
    /// The kind of message, such as `controller_choice`.
    pub category: Option<String>,
}

/// A captured log message, by value: level, message and category.
pub struct EntryView {
    pub level: VerbosityLevel,
    pub message: Seq<char>,
    pub category: Option<Seq<char>>,
}

impl View for LogEntry {
    type V = EntryView;

    open spec fn view(&self) -> EntryView {
        EntryView {
            level: self.level,
            message: self.message@,
            category: match self.category {
                Some(c) => Some(c@),
                None => None,
            },
        }
    }
}

/// Read-only access to the captured log entries.
pub struct LogGuard<'a> {
    entries: &'a [LogEntry],
}

impl<'a> LogGuard<'a> {
    /// The entries seen through the guard.
    pub closed spec fn spec_entries(&self) -> &'a [LogEntry] {
        self.entries
    }

    /// An iterator over the entries, in order.
    pub fn iter(&self) -> (r: std::slice::Iter<'_, LogEntry>)
        ensures
            r == spec_slice_iter(self.spec_entries()),
    {
        self.entries.iter()
    }

    /// The entries as a slice.
    pub fn as_slice(&self) -> (r: &[LogEntry])
        ensures
            r@ == self.spec_entries()@,
    {
        self.entries
    }

    /// The number of entries.
    pub fn len(&self) -> (r: usize)
        ensures
            r == self.spec_entries()@.len(),
    {
        self.entries.len()
    }

    /// Whether there are no entries.
    pub fn is_empty(&self) -> (r: bool)
        ensures
            r == (self.spec_entries()@.len() == 0),
    {
        self.entries.len() == 0
    }
}

/// The game logger's settings and captured messages.
pub struct GameLogger {
    pub verbosity: VerbosityLevel,
    pub step_header_printed: bool,
    pub numeric_choices: bool,
    pub output_format: OutputFormat,
    pub output_mode: OutputMode,
    /// Always show choice menus.
    pub show_choice_menu: bool,
    /// Print the state hash before each logged action.
    pub debug_state_hash: bool,
    /// The captured messages.
    pub log_buffer: Vec<LogEntry>,
}

/// The mode captures messages in memory.
pub open spec fn captures(m: OutputMode) -> bool {
    m == OutputMode::Memory || m == OutputMode::Both
}

/// The mode prints messages.
pub open spec fn prints(m: OutputMode) -> bool {
    m == OutputMode::Stdout || m == OutputMode::Both
}

/// The printed form of a message at a level: minimal messages as they are,
/// others indented by two spaces.
pub open spec fn printed_line(level: VerbosityLevel, message: Seq<char>) -> Seq<char> {
    if level == VerbosityLevel::Minimal {
        message
    } else {
        "  "@ + message
    }
}

/// The logger's settings are unchanged between two states.
pub open spec fn same_settings(a: GameLogger, b: GameLogger) -> bool {
    &&& a.verbosity == b.verbosity
    &&& a.step_header_printed == b.step_header_printed
    &&& a.numeric_choices == b.numeric_choices
    &&& a.output_format == b.output_format
    &&& a.output_mode == b.output_mode
    &&& a.show_choice_menu == b.show_choice_menu
    &&& a.debug_state_hash == b.debug_state_hash
}

/// The lines that flushing entries prints: those whose level is at most the
/// verbosity, in order.
pub open spec fn flushed_lines(entries: Seq<LogEntry>, verbosity: VerbosityLevel) -> Seq<Seq<char>>
    decreases entries.len(),
{
    if entries.len() == 0 {
        Seq::empty()
    } else {
        let e = entries.last();
        let prev = flushed_lines(entries.drop_last(), verbosity);
        if level_rank(e.level) <= level_rank(verbosity) {
            prev.push(printed_line(e.level, e.message@))
        } else {
            prev
        }
    }
}

fn printed(level: VerbosityLevel, message: &str) -> (r: String)
    ensures
        r@ == printed_line(level, message@),
{
    if level == VerbosityLevel::Minimal {
        message.to_owned()
    } else {
        concat2("  ", message)
    }
}

impl GameLogger {
    /// A logger with normal verbosity that prints to standard output.
    pub fn new() -> (r: Self)
        ensures
            r.verbosity == VerbosityLevel::Normal,
            !r.step_header_printed,
            !r.numeric_choices,
            r.output_format == OutputFormat::Text,
            r.output_mode == OutputMode::Stdout,
            !r.show_choice_menu,
            !r.debug_state_hash,
            r.log_buffer@.len() == 0,
    {
        Self::with_verbosity(VerbosityLevel::Normal)
    }

    /// A logger with the given verbosity that prints to standard output.
    pub fn with_verbosity(verbosity: VerbosityLevel) -> (r: Self)
        ensures
            r.verbosity == verbosity,
            !r.step_header_printed,
            !r.numeric_choices,
            r.output_format == OutputFormat::Text,
            r.output_mode == OutputMode::Stdout,
            !r.show_choice_menu,
            !r.debug_state_hash,
            r.log_buffer@.len() == 0,
    {
        GameLogger {
            verbosity,
            step_header_printed: false,
            numeric_choices: false,
            output_format: OutputFormat::Text,
            output_mode: OutputMode::Stdout,
            show_choice_menu: false,
            debug_state_hash: false,
            log_buffer: Vec::new(),
        }
    }

    pub fn set_output_mode(&mut self, mode: OutputMode)
        ensures
            *final(self) == (GameLogger { output_mode: mode, ..*old(self) }),
    {
        self.output_mode = mode;
    }

    pub fn output_mode(&self) -> (r: OutputMode)
        ensures
            r == self.output_mode,
    {
        self.output_mode
    }

    pub fn set_output_format(&mut self, format: OutputFormat)
        ensures
            *final(self) == (GameLogger { output_format: format, ..*old(self) }),
    {
        self.output_format = format;
    }

    pub fn output_format(&self) -> (r: OutputFormat)
        ensures
            r == self.output_format,
    {
        self.output_format
    }

    pub fn set_numeric_choices(&mut self, enabled: bool)
        ensures
            *final(self) == (GameLogger { numeric_choices: enabled, ..*old(self) }),
    {
        self.numeric_choices = enabled;
    }

    pub fn numeric_choices_enabled(&self) -> (r: bool)
        ensures
            r == self.numeric_choices,
    {
        self.numeric_choices
    }

    pub fn set_show_choice_menu(&mut self, enabled: bool)
        ensures
            *final(self) == (GameLogger { show_choice_menu: enabled, ..*old(self) }),
    {
        self.show_choice_menu = enabled;
    }

    pub fn should_show_choice_menu(&self) -> (r: bool)
        ensures
            r == self.show_choice_menu,
    {
        self.show_choice_menu
    }

    pub fn verbosity(&self) -> (r: VerbosityLevel)
        ensures
            r == self.verbosity,
    {
        self.verbosity
    }

    pub fn set_verbosity(&mut self, verbosity: VerbosityLevel)
        ensures
            *final(self) == (GameLogger { verbosity, ..*old(self) }),
    {
        self.verbosity = verbosity;
    }

    pub fn set_debug_state_hash(&mut self, enabled: bool)
        ensures
            *final(self) == (GameLogger { debug_state_hash: enabled, ..*old(self) }),
    {
        self.debug_state_hash = enabled;
    }

    pub fn debug_state_hash_enabled(&self) -> (r: bool)
        ensures
            r == self.debug_state_hash,
    {
        self.debug_state_hash
    }

    pub fn reset_step_header(&mut self)
        ensures
            *final(self) == (GameLogger { step_header_printed: false, ..*old(self) }),
    {
        self.step_header_printed = false;
    }

    pub fn mark_step_header_printed(&mut self)
        ensures
            *final(self) == (GameLogger { step_header_printed: true, ..*old(self) }),
    {
        self.step_header_printed = true;
    }

    pub fn step_header_printed(&self) -> (r: bool)
        ensures
            r == self.step_header_printed,
    {
        self.step_header_printed
    }

    /// A copy of the captured entries.
    pub fn get_logs(&self) -> (r: Vec<LogEntry>)
        ensures
            r@.len() == self.log_buffer@.len(),
            forall|i: int| 0 <= i < r@.len() ==> (#[trigger] r@[i])@ == self.log_buffer@[i]@,
    {
        let mut r: Vec<LogEntry> = Vec::new();
        let mut i: usize = 0;
        while i < self.log_buffer.len()
            invariant
                i <= self.log_buffer.len(),
                r@.len() == i,
                forall|k: int| 0 <= k < i ==> (#[trigger] r@[k])@ == self.log_buffer@[k]@,
            decreases self.log_buffer.len() - i,
        {
            let e = &self.log_buffer[i];
            let category = match &e.category {
                Some(c) => Some(c.clone()),
                None => None,
            };
            r.push(LogEntry { level: e.level, message: e.message.clone(), category });
            i = i + 1;
        }
        r
    }

    /// Captures only to memory.
    pub fn enable_capture(&mut self)
        ensures
            final(self).output_mode == OutputMode::Memory,
            final(self).log_buffer@ == old(self).log_buffer@,
    {
        self.output_mode = OutputMode::Memory;
    }

    /// Prints only to standard output.
    pub fn disable_capture(&mut self)
        ensures
            final(self).output_mode == OutputMode::Stdout,
            final(self).log_buffer@ == old(self).log_buffer@,
    {
        self.output_mode = OutputMode::Stdout;
    }

    /// Whether messages are captured in memory.
    pub fn is_capturing(&self) -> (r: bool)
        ensures
            r == captures(self.output_mode),
    {
        self.output_mode == OutputMode::Memory || self.output_mode == OutputMode::Both
    }

    /// The captured entries.
    pub fn logs(&self) -> (r: LogGuard<'_>)
        ensures
            r.spec_entries()@ == self.log_buffer@,
    {
        LogGuard { entries: self.log_buffer.as_slice() }
    }

    /// Drops the captured entries.
    pub fn clear_logs(&mut self)
        ensures
            same_settings(*old(self), *final(self)),
            final(self).log_buffer@.len() == 0,
    {
        self.log_buffer.clear();
    }

    /// The lines to print for the captured entries whose level is at most the
    /// verbosity, in order; the buffer is then cleared.
    pub fn flush_buffer(&mut self) -> (r: Vec<String>)
        ensures
            same_settings(*old(self), *final(self)),
            final(self).log_buffer@.len() == 0,
            r@.len() == flushed_lines(old(self).log_buffer@, old(self).verbosity).len(),
            forall|i: int| 0 <= i < r@.len() ==> (#[trigger] r@[i])@ == flushed_lines(
                old(self).log_buffer@,
                old(self).verbosity,
            )[i],
    {
        let lines = lines_to_print(&self.log_buffer, 0, self.verbosity);
        proof {
            assert(self.log_buffer@.skip(0) =~= self.log_buffer@);
        }
        self.log_buffer.clear();
        lines
    }

    /// Like `flush_buffer`, for the last `tail_lines` entries only; when
    /// entries are left out it also gives the line announcing how many.
    pub fn flush_tail(&mut self, tail_lines: usize) -> (r: (Option<String>, Vec<String>))
        ensures
            same_settings(*old(self), *final(self)),
            final(self).log_buffer@.len() == 0,
            ({
                let n = old(self).log_buffer@.len();
                let skipped = if n > tail_lines { n - tail_lines } else { 0 };
                let shown = flushed_lines(old(self).log_buffer@.skip(skipped), old(self).verbosity);
                &&& (skipped > 0 <==> r.0 is Some)
                &&& r.1@.len() == shown.len()
                &&& forall|i: int| 0 <= i < r.1@.len() ==> (#[trigger] r.1@[i])@ == shown[i]
            }),
    {
        let total_lines = self.log_buffer.len();
        let elided_count = if total_lines > tail_lines { total_lines - tail_lines } else { 0 };
        let notice = if elided_count > 0 {
            Some(elision_notice(elided_count, tail_lines))
        } else {
            None
        };
        let lines = lines_to_print(&self.log_buffer, elided_count, self.verbosity);
        self.log_buffer.clear();
        (notice, lines)
    }

    /// Logs a message at a level (silent messages are dropped): captured when
    /// the mode captures; the line to print is given when the mode prints and
    /// the verbosity allows the level.
    fn log_at(&mut self, level: VerbosityLevel, message: &str) -> (r: Option<String>)
        requires
            level != VerbosityLevel::Silent,
        ensures
            same_settings(*old(self), *final(self)),
            captures(old(self).output_mode) ==> final(self).log_buffer@.len() == old(self).log_buffer@.len() + 1
                && final(self).log_buffer@.drop_last() == old(self).log_buffer@
                && final(self).log_buffer@.last()@ == (EntryView { level, message: message@, category: None }),
            !captures(old(self).output_mode) ==> final(self).log_buffer@ == old(self).log_buffer@,
            match r {
                Some(line) => prints(old(self).output_mode) && level_rank(level) <= level_rank(old(self).verbosity)
                    && line@ == printed_line(level, message@),
                None => !(prints(old(self).output_mode) && level_rank(level) <= level_rank(old(self).verbosity)),
            },
    {
        let should_capture = self.output_mode == OutputMode::Memory || self.output_mode == OutputMode::Both;
        let should_output = self.output_mode == OutputMode::Stdout || self.output_mode == OutputMode::Both;
        if should_capture {
            self.log_buffer.push(LogEntry { level, message: message.to_owned(), category: None });
        }
        if should_output && level.at_most(self.verbosity) {
            Some(printed(level, message))
        } else {
            None
        }
    }

    /// A silent message: never printed or captured.
    pub fn silent(&self, message: &str) {
    }

    /// Logs a message at minimal level; gives the line to print, if any.
    pub fn minimal(&mut self, message: &str) -> (r: Option<String>)
        ensures
            same_settings(*old(self), *final(self)),
            captures(old(self).output_mode) ==> final(self).log_buffer@ == old(self).log_buffer@.push(
                final(self).log_buffer@.last(),
            ) && final(self).log_buffer@.last()@ == (EntryView {
                level: VerbosityLevel::Minimal,
                message: message@,
                category: None,
            }),
            !captures(old(self).output_mode) ==> final(self).log_buffer@ == old(self).log_buffer@,
            match r {
                Some(line) => prints(old(self).output_mode) && 1 <= level_rank(old(self).verbosity) && line@
                    == printed_line(VerbosityLevel::Minimal, message@),
                None => !(prints(old(self).output_mode) && 1 <= level_rank(old(self).verbosity)),
            },
    {
        let r = self.log_at(VerbosityLevel::Minimal, message);
        proof {
            if captures(old(self).output_mode) {
                assert(self.log_buffer@ =~= old(self).log_buffer@.push(self.log_buffer@.last()));
            }
        }
        r
    }

    /// Logs a message at normal level; gives the line to print, if any.
    pub fn normal(&mut self, message: &str) -> (r: Option<String>)
        ensures
            same_settings(*old(self), *final(self)),
            captures(old(self).output_mode) ==> final(self).log_buffer@ == old(self).log_buffer@.push(
                final(self).log_buffer@.last(),
            ) && final(self).log_buffer@.last()@ == (EntryView {
                level: VerbosityLevel::Normal,
                message: message@,
                category: None,
            }),
            !captures(old(self).output_mode) ==> final(self).log_buffer@ == old(self).log_buffer@,
            match r {
                Some(line) => prints(old(self).output_mode) && 2 <= level_rank(old(self).verbosity) && line@
                    == printed_line(VerbosityLevel::Normal, message@),
                None => !(prints(old(self).output_mode) && 2 <= level_rank(old(self).verbosity)),
            },
    {
        let r = self.log_at(VerbosityLevel::Normal, message);
        proof {
            if captures(old(self).output_mode) {
                assert(self.log_buffer@ =~= old(self).log_buffer@.push(self.log_buffer@.last()));
            }
        }
        r
    }

    /// Logs a message at verbose level; gives the line to print, if any.
    pub fn verbose(&mut self, message: &str) -> (r: Option<String>)
        ensures
            same_settings(*old(self), *final(self)),
            captures(old(self).output_mode) ==> final(self).log_buffer@ == old(self).log_buffer@.push(
                final(self).log_buffer@.last(),
            ) && final(self).log_buffer@.last()@ == (EntryView {
                level: VerbosityLevel::Verbose,
                message: message@,
                category: None,
            }),
            !captures(old(self).output_mode) ==> final(self).log_buffer@ == old(self).log_buffer@,
            match r {
                Some(line) => prints(old(self).output_mode) && 3 <= level_rank(old(self).verbosity) && line@
                    == printed_line(VerbosityLevel::Verbose, message@),
                None => !(prints(old(self).output_mode) && 3 <= level_rank(old(self).verbosity)),
            },
    {
        let r = self.log_at(VerbosityLevel::Verbose, message);
        proof {
            if captures(old(self).output_mode) {
                assert(self.log_buffer@ =~= old(self).log_buffer@.push(self.log_buffer@.last()));
            }
        }
        r
    }

    /// Logs a controller's decision. It is shown when numeric choices are on
    /// or the verbosity is at least normal; captured (at normal level, in the
    /// `controller_choice` category) when the mode captures. Gives the debug
    /// line for standard error (when state-hash debugging is on and the
    /// message is used) and the line for standard output (two spaces, then
    /// the message).
    pub fn controller_choice(&mut self, controller_name: &str, message: &str) -> (r: (Option<String>, Option<String>))
        ensures
            same_settings(*old(self), *final(self)),
            ({
                let should_log = old(self).numeric_choices || 2 <= level_rank(old(self).verbosity);
                let used = should_log || captures(old(self).output_mode);
                &&& (r.0 matches Some(d) ==> d@ == "  >>> "@ + controller_name@ + ": "@ + message@)
                &&& (r.0 is Some <==> used && old(self).debug_state_hash)
                &&& (r.1 matches Some(o) ==> o@ == "  "@ + message@)
                &&& (r.1 is Some <==> prints(old(self).output_mode) && should_log)
                &&& (captures(old(self).output_mode) ==> final(self).log_buffer@.len() == old(self).log_buffer@.len() + 1
                    && final(self).log_buffer@.drop_last() == old(self).log_buffer@
                    && final(self).log_buffer@.last()@ == (EntryView {
                    level: VerbosityLevel::Normal,
                    message: message@,
                    category: Some("controller_choice"@),
                }))
                &&& (!captures(old(self).output_mode) ==> final(self).log_buffer@ == old(self).log_buffer@)
            }),
    {
        let should_capture = self.output_mode == OutputMode::Memory || self.output_mode == OutputMode::Both;
        let should_output = self.output_mode == OutputMode::Stdout || self.output_mode == OutputMode::Both;
        let should_log = self.numeric_choices || VerbosityLevel::Normal.at_most(self.verbosity);
        if !should_log && !should_capture {
            return (None, None);
        }
        let debug = if self.debug_state_hash {
            let head = concat3("  >>> ", controller_name, ": ");
            Some(concat2(head.as_str(), message))
        } else {
            None
        };
        if should_capture {
            self.log_buffer.push(
                LogEntry {
                    level: VerbosityLevel::Normal,
                    message: message.to_owned(),
                    category: Some("controller_choice".to_owned()),
                },
            );
        }
        let out = if should_output && should_log {
            Some(concat2("  ", message))
        } else {
            None
        };
        (debug, out)
    }
}

/// The line announcing how many log lines are left out.
pub open spec fn elision_line(elided: nat, tail: nat) -> Seq<char> {
    ">>> "@ + crate::text::decimal_text(elided) + " LOG LINES ELIDED. PRINTING LAST "@ + crate::text::decimal_text(tail)
        + " LINES <<<"@
}

fn elision_notice(elided: usize, tail: usize) -> (r: String)
    ensures
        r@ == elision_line(elided as nat, tail as nat),
{
    let a = crate::text::decimal_string(elided);
    let b = crate::text::decimal_string(tail);
    let head = concat3(">>> ", a.as_str(), " LOG LINES ELIDED. PRINTING LAST ");
    concat3(head.as_str(), b.as_str(), " LINES <<<")
}

/// The lines to print for the entries from position `start` on.
fn lines_to_print(entries: &Vec<LogEntry>, start: usize, verbosity: VerbosityLevel) -> (r: Vec<String>)
    requires
        start <= entries.len(),
    ensures
        r@.len() == flushed_lines(entries@.skip(start as int), verbosity).len(),
        forall|i: int| 0 <= i < r@.len() ==> (#[trigger] r@[i])@ == flushed_lines(entries@.skip(start as int), verbosity)[i],
{
    let ghost tail = entries@.skip(start as int);
    let mut lines: Vec<String> = Vec::new();
    let mut i = start;
    proof {
        assert(tail.take(0) =~= Seq::<LogEntry>::empty());
    }
    while i < entries.len()
        invariant
            start <= i <= entries.len(),
            tail == entries@.skip(start as int),
            lines@.len() == flushed_lines(tail.take(i - start), verbosity).len(),
            forall|k: int| 0 <= k < lines@.len() ==> (#[trigger] lines@[k])@ == flushed_lines(tail.take(i - start), verbosity)[k],
        decreases entries.len() - i,
    {
        proof {
            assert(tail.take(i - start + 1).drop_last() =~= tail.take(i - start));
            assert(tail.take(i - start + 1).last() == entries@[i as int]);
        }
        let e = &entries[i];
        if e.level.at_most(verbosity) {
            let line = printed(e.level, e.message.as_str());
            lines.push(line);
        }
        i = i + 1;
    }
    proof {
        assert(tail.take(entries.len() - start) =~= tail);
    }
    lines
}

} // verus!

verus! {

/// A log message that marks a clean place to stop: a controller's choice
/// (`>>> ` with `chose`, `RANDOM`, `HEURISTIC` or `ZERO`), or the end of the
/// game (`Game Over` or `wins!`).
pub open spec fn marks_stopping_point(m: Seq<char>) -> bool {
    ||| seq_contains(m, ">>> "@) && (seq_contains(m, "chose"@) || seq_contains(m, "RANDOM"@) || seq_contains(
        m,
        "HEURISTIC"@,
    ) || seq_contains(m, "ZERO"@))
    ||| seq_contains(m, "Game Over"@)
    ||| seq_contains(m, "wins!"@)
}

/// Whether a game may stop after these captured entries: when nothing is
/// captured yet, or when one of the last five entries marks a stopping point.
pub open spec fn valid_stopping_point(logs: Seq<EntryView>) -> bool {
    logs.len() == 0 || exists|i: int|
        logs.len() - 5 <= i < logs.len() && 0 <= i && marks_stopping_point(#[trigger] logs[i].message)
}

/// Whether a message marks a clean place to stop.
pub fn is_stopping_message(m: &str) -> (r: bool)
    ensures
        r == marks_stopping_point(m@),
{
    (str_contains(m, ">>> ") && (str_contains(m, "chose") || str_contains(m, "RANDOM") || str_contains(
        m,
        "HEURISTIC",
    ) || str_contains(m, "ZERO"))) || str_contains(m, "Game Over") || str_contains(m, "wins!")
}

/// Whether the game may stop after the captured entries `logs`; when it may
/// not, the caller warns and shows the last entries.
pub fn is_valid_stopping_point(logs: &[LogEntry]) -> (r: bool)
    ensures
        r == valid_stopping_point(logs@.map_values(|e: LogEntry| e@)),
{
    let ghost views = logs@.map_values(|e: LogEntry| e@);
    if logs.len() == 0 {
        return true;
    }
    let check_count = if logs.len() < 5 { logs.len() } else { 5 };
    let mut k: usize = logs.len();
    while k > logs.len() - check_count
        invariant
            logs.len() - check_count <= k <= logs.len(),
            check_count == if logs.len() < 5 { logs.len() } else { 5 },
            views == logs@.map_values(|e: LogEntry| e@),
            forall|i: int| k <= i < logs.len() ==> !marks_stopping_point(#[trigger] views[i].message),
        decreases k,
    {
        k = k - 1;
        if is_stopping_message(logs[k].message.as_str()) {
            proof {
                assert(views[k as int].message == logs@[k as int].message@);
            }
            return true;
        }
        proof {
            assert(views[k as int].message == logs@[k as int].message@);
        }
    }
    false
}

} // verus!
