use vstd::prelude::*;

use crate::text::{append_text, new_text};

verus! {

/// The most lines the debug log keeps.
pub const MAX_LINES: usize = 500;

/// The debug log: the latest lines, oldest first.
pub struct DebugLog {
    pub lines: Vec<String>,
}

pub open spec fn line_views(v: Seq<String>) -> Seq<Seq<char>> {
    v.map_values(|s: String| s@)
}

/// A log line: `[time] LEVEL: message`.
pub open spec fn log_line(timestamp: Seq<char>, level: Seq<char>, message: Seq<char>) -> Seq<char> {
    "["@ + timestamp + "] "@ + level + ": "@ + message
}

/// The lines after one more: appended, then the oldest dropped beyond `MAX_LINES`.
pub open spec fn appended(lines: Seq<Seq<char>>, line: Seq<char>) -> Seq<Seq<char>> {
    let all = lines.push(line);
    if all.len() > MAX_LINES {
        all.subrange(all.len() - MAX_LINES, all.len() as int)
    } else {
        all
    }
}

/// The lines joined with newlines.
pub open spec fn joined_lines(lines: Seq<Seq<char>>) -> Seq<char>
    decreases lines.len(),
{
    if lines.len() == 0 {
        seq![]
    } else if lines.len() == 1 {
        lines[0]
    } else {
        joined_lines(lines.drop_last()) + "\n"@ + lines.last()
    }
}

impl DebugLog {
    pub fn new() -> (r: Self)
        ensures
            r.lines@.len() == 0,
    {
        DebugLog { lines: Vec::new() }
    }

    /// Adds a line at `level` stamped with `timestamp` (the local time, formatted by the caller).
    pub fn push(&mut self, level: &str, timestamp: &str, message: &str)
        ensures
            line_views(final(self).lines@) == appended(
                line_views(old(self).lines@),
                log_line(timestamp@, level@, message@),
            ),
    {
        let mut line = new_text("[");
        append_text(&mut line, timestamp);
        append_text(&mut line, "] ");
        append_text(&mut line, level);
        append_text(&mut line, ": ");
        append_text(&mut line, message);
        let ghost before = line_views(self.lines@);
        let ghost lv = line@;
        self.lines.push(line);
        let ghost all = before.push(lv);
        assert(line_views(self.lines@) =~= all);
        if self.lines.len() > MAX_LINES {
            let drain = self.lines.len() - MAX_LINES;
            let mut kept: Vec<String> = Vec::new();
            let mut i: usize = drain;
            while i < self.lines.len()
                invariant
                    drain <= i <= self.lines@.len(),
                    all == line_views(self.lines@),
                    drain == all.len() - MAX_LINES,
                    line_views(kept@) == all.subrange(drain as int, i as int),
                    kept@.len() == i - drain,
                decreases self.lines.len() - i,
            {
                kept.push(self.lines[i].clone());
                assert(line_views(kept@) =~= all.subrange(drain as int, (i + 1) as int));
                i = i + 1;
            }
            self.lines = kept;
        }
    }

    pub fn info(&mut self, timestamp: &str, message: &str)
        ensures
            line_views(final(self).lines@) == appended(
                line_views(old(self).lines@),
                log_line(timestamp@, "INFO"@, message@),
            ),
    {
        self.push("INFO", timestamp, message);
    }

    pub fn warn(&mut self, timestamp: &str, message: &str)
        ensures
            line_views(final(self).lines@) == appended(
                line_views(old(self).lines@),
                log_line(timestamp@, "WARN"@, message@),
            ),
    {
        self.push("WARN", timestamp, message);
    }

    pub fn error(&mut self, timestamp: &str, message: &str)
        ensures
            line_views(final(self).lines@) == appended(
                line_views(old(self).lines@),
                log_line(timestamp@, "ERROR"@, message@),
            ),
    {
        self.push("ERROR", timestamp, message);
    }

    pub fn debug(&mut self, timestamp: &str, message: &str)
        ensures
            line_views(final(self).lines@) == appended(
                line_views(old(self).lines@),
                log_line(timestamp@, "DEBUG"@, message@),
            ),
    {
        self.push("DEBUG", timestamp, message);
    }

    /// A copy of the lines.
    pub fn entries(&self) -> (r: Vec<String>)
        ensures
            line_views(r@) == line_views(self.lines@),
    {
        let mut r: Vec<String> = Vec::new();
        let mut i: usize = 0;
        while i < self.lines.len()
            invariant
                i <= self.lines@.len(),
                line_views(r@) == line_views(self.lines@).subrange(0, i as int),
                r@.len() == i,
            decreases self.lines.len() - i,
        {
            r.push(self.lines[i].clone());
            assert(line_views(r@) =~= line_views(self.lines@).subrange(0, (i + 1) as int));
            i = i + 1;
        }
        assert(line_views(self.lines@).subrange(0, self.lines@.len() as int) =~= line_views(
            self.lines@,
        ));
        r
    }

    /// The lines joined with newlines.
    pub fn entries_text(&self) -> (r: String)
        ensures
            r@ == joined_lines(line_views(self.lines@)),
    {
        let ghost lines = line_views(self.lines@);
        let mut text = String::new();
        let mut i: usize = 0;
        while i < self.lines.len()
            invariant
                lines == line_views(self.lines@),
                i <= self.lines@.len(),
                text@ == joined_lines(lines.subrange(0, i as int)),
            decreases self.lines.len() - i,
        {
            assert(lines.subrange(0, (i + 1) as int).drop_last() =~= lines.subrange(0, i as int));
            assert(lines.subrange(0, (i + 1) as int).last() == self.lines@[i as int]@);
            if i > 0 {
                append_text(&mut text, "\n");
            } else {
                assert(lines.subrange(0, 1)[0] == self.lines@[0]@);
            }
            append_text(&mut text, self.lines[i].as_str());
            i = i + 1;
        }
        assert(lines.subrange(0, lines.len() as int) =~= lines);
        text
    }
}

/// The log never holds more than `MAX_LINES` lines, and the line just added is the last one.
pub proof fn law_log_is_bounded(lines: Seq<Seq<char>>, line: Seq<char>)
    requires
        lines.len() <= MAX_LINES,
    ensures
        appended(lines, line).len() <= MAX_LINES,
        appended(lines, line).last() == line,
{
}

} // verus!
