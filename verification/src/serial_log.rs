use vstd::prelude::*;

use std::collections::VecDeque;

use crate::ascii::{ASCII_LBRACKET, ASCII_NEWLINE, ASCII_RBRACKET, ASCII_SPACE};
use crate::message::push_bytes;

verus! {

/// The log trims itself once it holds more lines than this.
pub const MAX_LINES: usize = 2000;

/// How many of the newest lines a trim keeps.
pub const RETAIN_LINES_AFTER_TRIM: usize = 1500;

/// One line of the serial log: when it was logged, and its text.
pub struct LogEntry {
    pub timestamp: Vec<u8>,
    pub text: Vec<u8>,
}

/// How the display of the log must change after a flush.
pub enum LogFlush {
    /// It already shows the whole log.
    Unchanged,
    /// This text goes after what it shows.
    Append(Vec<u8>),
    /// This text replaces everything it shows.
    Replace(Vec<u8>),
}

/// How one line of the log is shown: `[timestamp] text` or `text`, then a
/// newline.
pub open spec fn format_entry(e: LogEntry, show_timestamps: bool) -> Seq<u8> {
    (if show_timestamps {
        seq![ASCII_LBRACKET] + e.timestamp@ + seq![ASCII_RBRACKET, ASCII_SPACE]
    } else {
        Seq::<u8>::empty()
    }) + e.text@ + seq![ASCII_NEWLINE]
}

/// How a run of log lines is shown, one after the other.
pub open spec fn format_entries(entries: Seq<LogEntry>, show_timestamps: bool) -> Seq<u8>
    decreases entries.len(),
{
    if entries.len() == 0 {
        Seq::<u8>::empty()
    } else {
        format_entries(entries.drop_last(), show_timestamps) + format_entry(entries.last(), show_timestamps)
    }
}

/// The serial log shown to the user. New lines are batched and handed to the
/// display at the next flush; clearing, trimming or switching timestamps
/// makes the next flush redraw everything.
pub struct SerialLog {
    entries: VecDeque<LogEntry>,
    show_timestamps: bool,
    pending_text: Vec<u8>,
    rebuild: bool,
    shown: Ghost<Seq<u8>>,
}

/// The log by value: its lines, whether timestamps are shown, the text
/// waiting for the next flush, whether the next flush redraws, and the text
/// the display was last handed.
pub struct SerialLogView {
    pub entries: Seq<LogEntry>,
    pub show_timestamps: bool,
    pub pending: Seq<u8>,
    pub rebuild: bool,
    pub shown: Seq<u8>,
}

impl View for SerialLog {
    type V = SerialLogView;

    closed spec fn view(&self) -> SerialLogView {
        SerialLogView {
            entries: self.entries@,
            show_timestamps: self.show_timestamps,
            pending: self.pending_text@,
            rebuild: self.rebuild,
            shown: self.shown@,
        }
    }
}

/// The log after `e` was added: its text waits for the next flush unless a
/// redraw is due anyway; past `MAX_LINES` lines only the newest
/// `RETAIN_LINES_AFTER_TRIM` stay and a redraw is due.
pub open spec fn spec_push(v: SerialLogView, e: LogEntry) -> SerialLogView {
    let entries = v.entries.push(e);
    let pending = if v.rebuild {
        v.pending
    } else {
        v.pending + format_entry(e, v.show_timestamps)
    };
    if entries.len() > MAX_LINES {
        SerialLogView {
            entries: entries.skip(entries.len() - RETAIN_LINES_AFTER_TRIM),
            pending: Seq::<u8>::empty(),
            rebuild: true,
            ..v
        }
    } else {
        SerialLogView { entries, pending, ..v }
    }
}

/// Appends how `entry` is shown to `out`.
fn append_entry(out: &mut Vec<u8>, entry: &LogEntry, show_timestamps: bool)
    ensures
        final(out)@ == old(out)@ + format_entry(*entry, show_timestamps),
{
    let ghost start = out@;
    if show_timestamps {
        out.push(ASCII_LBRACKET);
        push_bytes(out, entry.timestamp.as_slice());
        out.push(ASCII_RBRACKET);
        out.push(ASCII_SPACE);
    }
    push_bytes(out, entry.text.as_slice());
    out.push(ASCII_NEWLINE);
    assert(out@ =~= start + format_entry(*entry, show_timestamps));
}

impl SerialLog {
    /// The log's bookkeeping holds: it is within `MAX_LINES` lines, and unless
    /// a redraw is due the display's text plus the waiting text is exactly
    /// how the lines are shown.
    pub closed spec fn wf(&self) -> bool {
        &&& self.entries@.len() <= MAX_LINES
        &&& !self.rebuild ==> self.shown@ + self.pending_text@ == format_entries(
            self.entries@,
            self.show_timestamps,
        )
    }

    /// An empty log that shows timestamps.
    pub fn new() -> (log: Self)
        ensures
            log.wf(),
            log@.entries.len() == 0,
            log@.show_timestamps,
            log@.pending.len() == 0,
            !log@.rebuild,
            log@.shown.len() == 0,
    {
        SerialLog {
            entries: VecDeque::new(),
            show_timestamps: true,
            pending_text: Vec::new(),
            rebuild: false,
            shown: Ghost(Seq::empty()),
        }
    }

    /// Logs `text` with the given timestamp.
    pub fn push_entry(&mut self, timestamp: Vec<u8>, text: Vec<u8>)
        requires
            old(self).wf(),
        ensures
            final(self).wf(),
            final(self)@ == spec_push(old(self)@, LogEntry { timestamp, text }),
    {
        let entry = LogEntry { timestamp, text };
        let ghost e = entry;
        if !self.rebuild {
            append_entry(&mut self.pending_text, &entry, self.show_timestamps);
        }
        let ghost before = self.entries@;
        self.entries.push_back(entry);
        proof {
            assert(self.entries@ =~= before.push(e));
            assert(self.entries@.drop_last() =~= before);
            assert(format_entries(self.entries@, self.show_timestamps) == format_entries(before, self.show_timestamps)
                + format_entry(e, self.show_timestamps));
            if !self.rebuild {
                assert(self.shown@ + self.pending_text@ =~= self.shown@ + old(self).pending_text@ + format_entry(
                    e,
                    self.show_timestamps,
                ));
            }
        }
        if self.entries.len() > MAX_LINES {
            let ghost full = self.entries@;
            while self.entries.len() > RETAIN_LINES_AFTER_TRIM
                invariant
                    self.shown@ == old(self).shown@,
                    self.show_timestamps == old(self).show_timestamps,
                    RETAIN_LINES_AFTER_TRIM <= self.entries@.len() <= full.len(),
                    self.entries@ == full.skip(full.len() - self.entries@.len()),
                decreases self.entries@.len(),
            {
                let ghost prior = self.entries@;
                self.entries.pop_front();
                assert(self.entries@ =~= full.skip(full.len() - self.entries@.len()));
            }
            assert(self.entries@.len() == RETAIN_LINES_AFTER_TRIM);
            self.pending_text.clear();
            self.rebuild = true;
        }
        assert(self@.pending =~= spec_push(old(self)@, e).pending);
        assert(self@.entries =~= spec_push(old(self)@, e).entries);

    }

    /// Drops every line; the next flush redraws an empty log.
    pub fn clear(&mut self)
        requires
            old(self).wf(),
        ensures
            final(self).wf(),
            final(self)@ == (SerialLogView {
                entries: Seq::empty(),
                pending: Seq::empty(),
                rebuild: true,
                ..old(self)@
            }),
    {
        self.entries.clear();
        self.pending_text.clear();
        self.rebuild = true;
    }

    /// Shows or hides timestamps; a change makes the next flush redraw.
    pub fn set_show_timestamps(&mut self, enabled: bool)
        requires
            old(self).wf(),
        ensures
            final(self).wf(),
            final(self)@ == if old(self)@.show_timestamps == enabled {
                old(self)@
            } else {
                SerialLogView { show_timestamps: enabled, pending: Seq::empty(), rebuild: true, ..old(self)@ }
            },
    {
        if self.show_timestamps != enabled {
            self.show_timestamps = enabled;
            self.pending_text.clear();
            self.rebuild = true;
        }
    }

    pub fn show_timestamps(&self) -> (r: bool)
        ensures
            r == self@.show_timestamps,
    {
        self.show_timestamps
    }

    /// How every line is shown, one after the other.
    fn rebuild_content(&self) -> (text: Vec<u8>)
        ensures
            text@ == format_entries(self@.entries, self@.show_timestamps),
    {
        let mut text: Vec<u8> = Vec::new();
        let mut i: usize = 0;
        while i < self.entries.len()
            invariant
                i <= self.entries@.len(),
                text@ == format_entries(self.entries@.take(i as int), self.show_timestamps),
            decreases self.entries@.len() - i,
        {
            append_entry(&mut text, &self.entries[i], self.show_timestamps);
            assert(self.entries@.take(i + 1).drop_last() =~= self.entries@.take(i as int));
            i = i + 1;
        }
        assert(self.entries@.take(i as int) =~= self.entries@);
        text
    }

    /// Hands the display what it needs to show the whole log: a redraw when
    /// one is due, else the lines logged since the last flush, if any.
    pub fn flush(&mut self) -> (res: LogFlush)
        requires
            old(self).wf(),
        ensures
            final(self).wf(),
            final(self)@.entries == old(self)@.entries,
            final(self)@.show_timestamps == old(self)@.show_timestamps,
            !final(self)@.rebuild,
            final(self)@.pending.len() == 0,
            final(self)@.shown == format_entries(final(self)@.entries, final(self)@.show_timestamps),
            match res {
                LogFlush::Unchanged => !old(self)@.rebuild && old(self)@.pending.len() == 0
                    && final(self)@.shown == old(self)@.shown,
                LogFlush::Append(text) => !old(self)@.rebuild && old(self)@.pending.len() > 0 && text@
                    == old(self)@.pending && final(self)@.shown == old(self)@.shown + text@,
                LogFlush::Replace(text) => old(self)@.rebuild && text@ == format_entries(
                    old(self)@.entries,
                    old(self)@.show_timestamps,
                ) && final(self)@.shown == text@,
            },
    {
        if self.rebuild {
            let text = self.rebuild_content();
            self.rebuild = false;
            self.pending_text.clear();
            proof {
                self.shown@ = text@;
                assert(self.shown@ + self.pending_text@ =~= text@);
            }
            return LogFlush::Replace(text);
        }
        if self.pending_text.len() == 0 {
            proof {
                assert(self.shown@ + self.pending_text@ =~= self.shown@);
            }
            return LogFlush::Unchanged;
        }
        let mut text: Vec<u8> = Vec::new();
        std::mem::swap(&mut text, &mut self.pending_text);
        proof {
            self.shown@ = self.shown@ + text@;
            assert(self.shown@ + self.pending_text@ =~= self.shown@);
        }
        LogFlush::Append(text)
    }

    /// Whether the log holds no line.
    pub fn is_empty(&self) -> (r: bool)
        ensures
            r == (self@.entries.len() == 0),
    {
        self.entries.len() == 0
    }

    /// How many lines the log holds.
    pub fn len(&self) -> (r: usize)
        ensures
            r == self@.entries.len(),
    {
        self.entries.len()
    }

    /// The text of the newest line, if any.
    pub fn last_text(&self) -> (r: Option<&[u8]>)
        ensures
            match r {
                Some(t) => self@.entries.len() > 0 && t@ == self@.entries.last().text@,
                None => self@.entries.len() == 0,
            },
    {
        let n = self.entries.len();
        if n == 0 {
            None
        } else {
            Some(self.entries[n - 1].text.as_slice())
        }
    }

    /// Whether a redraw is due at the next flush.
    pub fn rebuild_pending(&self) -> (r: bool)
        ensures
            r == self@.rebuild,
    {
        self.rebuild
    }
}

} // verus!
