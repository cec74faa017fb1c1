//! Logging decisions: which records pass the filter, how a line is prefixed, and the batch
//! of errors that is mailed no more often than once per sending period.
use vstd::prelude::*;

use crate::text::{decimal, push_decimal, same_text, starts_with};

verus! {

/// Severity of a record, most severe first.
#[derive(Debug, Clone, Copy, PartialEq, Eq, Structural)]
pub enum Level {
    Error,
    Warn,
    Info,
    Debug,
    Trace,
}

pub open spec fn rank(l: Level) -> nat {
    match l {
        Level::Error => 1,
        Level::Warn => 2,
        Level::Info => 3,
        Level::Debug => 4,
        Level::Trace => 5,
    }
}

pub open spec fn letter(l: Level) -> Seq<char> {
    match l {
        Level::Error => "E"@,
        Level::Warn => "W"@,
        Level::Info => "I"@,
        Level::Debug => "D"@,
        Level::Trace => "T"@,
    }
}

impl Level {
    /// The level's place from the most severe, 1 for errors.
    pub fn rank(&self) -> (r: u8)
        ensures
            r as nat == rank(*self),
    {
        match self {
            Level::Error => 1,
            Level::Warn => 2,
            Level::Info => 3,
            Level::Debug => 4,
            Level::Trace => 5,
        }
    }

    /// The letter a line of this level starts with.
    pub fn letter(&self) -> (r: &'static str)
        ensures
            r@ == letter(*self),
    {
        match self {
            Level::Error => "E",
            Level::Warn => "W",
            Level::Info => "I",
            Level::Debug => "D",
            Level::Trace => "T",
        }
    }
}

/// Which records are logged: those at least as severe as `level` and, when a target is
/// set, those of that target or of a module under it.
pub struct LogFilter {
    pub level: Level,
    pub target: Option<String>,
}

pub open spec fn passes(filter: LogFilter, level: Level, target: Seq<char>) -> bool {
    rank(level) <= rank(filter.level) && match filter.target {
        None => true,
        Some(t) => target == t@ || (t@ + "::"@).len() <= target.len() && target.subrange(
            0,
            (t@ + "::"@).len() as int,
        ) == t@ + "::"@,
    }
}

impl LogFilter {
    pub fn enabled(&self, level: Level, target: &str) -> (r: bool)
        ensures
            r == passes(*self, level, target@),
    {
        if level.rank() > self.level.rank() {
            return false;
        }
        match &self.target {
            None => true,
            Some(t) => {
                if same_text(target, t.as_str()) {
                    return true;
                }
                let mut scoped = String::from_str(t.as_str());
                scoped.append("::");
                starts_with(target, scoped.as_str())
            },
        }
    }
}

/// `s` cut or padded with spaces to exactly 16 characters, as `{:16.16}` formats it.
pub open spec fn fit16(s: Seq<char>) -> Seq<char> {
    if s.len() >= 16 {
        s.subrange(0, 16)
    } else {
        s + Seq::new((16 - s.len()) as nat, |i: int| ' ')
    }
}

/// The decimal form of `n` with leading zeros up to four digits, as `{:04}` formats it.
pub open spec fn zero4(n: nat) -> Seq<char> {
    let d = decimal(n);
    if d.len() >= 4 {
        d
    } else {
        Seq::new((4 - d.len()) as nat, |i: int| '0') + d
    }
}

/// The prefix of a logged line: in debug mode with a known place, `[place:line] `, where the
/// place is the source file or, for an absolute file path, the target; then the level
/// letter and `: `.
pub open spec fn line_prefix(debug: bool, target: Seq<char>, file: Option<Seq<char>>, line: Option<u32>, level: Level) -> Seq<char> {
    let place = if debug && file is Some && line is Some {
        let path = if file->0.len() > 0 && file->0[0] == '/' {
            target
        } else {
            file->0
        };
        "["@ + fit16(path) + ":"@ + zero4(line->0 as nat) + "] "@
    } else {
        Seq::empty()
    };
    place + letter(level) + ": "@
}

fn repeat_append(out: &mut String, unit: &str, count: usize)
    requires
        unit@.len() == 1,
    ensures
        final(out)@ == old(out)@ + Seq::new(count as nat, |i: int| unit@[0]),
{
    let mut k: usize = 0;
    assert(old(out)@ + Seq::new(0, |i: int| unit@[0]) =~= old(out)@);
    while k < count
        invariant
            k <= count,
            unit@.len() == 1,
            out@ == old(out)@ + Seq::new(k as nat, |i: int| unit@[0]),
        decreases count - k,
    {
        out.append(unit);
        k = k + 1;
        assert(out@ =~= old(out)@ + Seq::new(k as nat, |i: int| unit@[0]));
    }
}

/// Builds the prefix of a logged line.
pub fn format_prefix(debug: bool, target: &str, file: Option<&str>, line: Option<u32>, level: Level) -> (r: String)
    ensures
        r@ == line_prefix(
            debug,
            target@,
            match file {
                Some(f) => Some(f@),
                None => None,
            },
            line,
            level,
        ),
{
    let mut out = String::new();
    proof {
        reveal_strlit(" ");
        reveal_strlit("0");
    }
    if let (true, Some(f), Some(n)) = (debug, file, line) {
        let path = if f.unicode_len() > 0 && f.get_char(0) == '/' {
            target
        } else {
            f
        };
        out.append("[");
        let len = path.unicode_len();
        if len >= 16 {
            out.append(path.substring_char(0, 16));
        } else {
            out.append(path);
            repeat_append(&mut out, " ", 16 - len);
        }
        out.append(":");
        let mut digits = String::new();
        push_decimal(&mut digits, n as u64);
        proof {
            crate::text::lemma_decimal_nonempty(n as nat);
        }
        assert(digits@ =~= decimal(n as nat));
        let dl = digits.unicode_len();
        if dl < 4 {
            repeat_append(&mut out, "0", 4 - dl);
        }
        out.append(digits.as_str());
        out.append("] ");
    }
    out.append(level.letter());
    out.append(": ");
    proof {
        let fv = match file {
            Some(f) => Some(f@),
            None => None,
        };
        if debug && file is Some && line is Some {
            let path = if fv->0.len() > 0 && fv->0[0] == '/' {
                target@
            } else {
                fv->0
            };
            assert(out@ =~= "["@ + fit16(path) + ":"@ + zero4(line->0 as nat) + "] "@ + letter(level)
                + ": "@);
        } else {
            assert(out@ =~= Seq::<char>::empty() + letter(level) + ": "@);
        }
    }
    out
}

// ----- the batch of errors sent by email -----
/// Delay between the first error of a batch and the email that carries it, in milliseconds.
pub const FIRST_EMAIL_DELAY_MS: u64 = 60_000;

/// Least time between two emails, in milliseconds.
pub const MIN_EMAIL_SENDING_PERIOD_MS: u64 = 3_600_000;

/// Moments are milliseconds of a monotonic clock, below this bound.
pub const MAX_INSTANT_MS: u64 = 0x4000_0000_0000_0000;

/// The body of an email for a batch of errors.
pub open spec fn error_lines(errors: Seq<String>) -> Seq<char>
    decreases errors.len(),
{
    if errors.len() == 0 {
        Seq::empty()
    } else if errors.len() == 1 {
        "* "@ + errors[0]@
    } else {
        error_lines(errors.drop_last()) + "\n* "@ + errors.last()@
    }
}

pub open spec fn batch_message(errors: Seq<String>) -> Seq<char> {
    "The following errors has occurred:\n"@ + error_lines(errors)
}

/// Errors waiting to be mailed, when they are due, and when the last email left.
pub struct EmailLog {
    errors: Vec<String>,
    flush_time: Option<u64>,
    last_flush_time: Option<u64>,
}

impl EmailLog {
    pub closed spec fn errors_view(&self) -> Seq<String> {
        self.errors@
    }

    pub closed spec fn flush_at(&self) -> Option<u64> {
        self.flush_time
    }

    pub closed spec fn last_sent(&self) -> Option<u64> {
        self.last_flush_time
    }

    /// A batch is due exactly while it holds errors, and never earlier than one sending
    /// period after the last email.
    pub closed spec fn wf(&self) -> bool {
        &&& (self.errors@.len() > 0 <==> self.flush_time is Some)
        &&& (self.flush_time is Some && self.last_flush_time is Some ==> self.flush_time->0
            >= self.last_flush_time->0 + MIN_EMAIL_SENDING_PERIOD_MS)
        &&& (self.last_flush_time is Some ==> self.last_flush_time->0 <= MAX_INSTANT_MS)
    }

    pub fn new() -> (r: EmailLog)
        ensures
            r.wf(),
            r.errors_view().len() == 0,
            r.last_sent() is None,
    {
        EmailLog { errors: Vec::new(), flush_time: None, last_flush_time: None }
    }

    /// When the batch is due, if it holds errors.
    pub fn due_time(&self) -> (r: Option<u64>)
        ensures
            r == self.flush_at(),
    {
        self.flush_time
    }

    /// Adds an error at moment `now`. The first error of a batch makes it due one delay
    /// later, but no earlier than one sending period after the last email.
    pub fn on_error(&mut self, error: String, now: u64)
        requires
            old(self).wf(),
            now <= MAX_INSTANT_MS,
        ensures
            final(self).wf(),
            final(self).errors_view() == old(self).errors_view().push(error),
            final(self).last_sent() == old(self).last_sent(),
            old(self).errors_view().len() > 0 ==> final(self).flush_at() == old(self).flush_at(),
            old(self).errors_view().len() == 0 ==> final(self).flush_at() == Some(
                match old(self).last_sent() {
                    Some(l) => if now + FIRST_EMAIL_DELAY_MS >= l + MIN_EMAIL_SENDING_PERIOD_MS {
                        (now + FIRST_EMAIL_DELAY_MS) as u64
                    } else {
                        (l + MIN_EMAIL_SENDING_PERIOD_MS) as u64
                    },
                    None => (now + FIRST_EMAIL_DELAY_MS) as u64,
                },
            ),
    {
        if self.errors.len() == 0 {
            let mut t = now + FIRST_EMAIL_DELAY_MS;
            if let Some(l) = self.last_flush_time {
                if l + MIN_EMAIL_SENDING_PERIOD_MS > t {
                    t = l + MIN_EMAIL_SENDING_PERIOD_MS;
                }
            }
            self.flush_time = Some(t);
        }
        self.errors.push(error);
    }

    /// Takes the batch at moment `now`, due or not, and returns its email body, if it holds
    /// errors. Used on shutdown, and by `flush_if_due`.
    pub fn flush(&mut self, now: u64) -> (r: Option<String>)
        requires
            old(self).wf(),
            now <= MAX_INSTANT_MS,
        ensures
            final(self).wf(),
            old(self).errors_view().len() == 0 ==> r is None && *final(self) == *old(self),
            old(self).errors_view().len() > 0 ==> {
                &&& r matches Some(m) && m@ == batch_message(old(self).errors_view())
                &&& final(self).errors_view().len() == 0
                &&& final(self).flush_at() is None
                &&& final(self).last_sent() == Some(now)
            },
    {
        if self.errors.len() == 0 {
            return None;
        }
        let mut message = String::from_str("The following errors has occurred:\n");
        let mut i: usize = 0;
        proof {
            reveal_strlit("* ");
            reveal_strlit("\n* ");
        }
        assert(self.errors@.subrange(0, 0) =~= Seq::<String>::empty());
        while i < self.errors.len()
            invariant
                i <= self.errors@.len(),
                message@ == "The following errors has occurred:\n"@ + error_lines(
                    self.errors@.subrange(0, i as int),
                ),
            decreases self.errors.len() - i,
        {
            let ghost before = self.errors@.subrange(0, i as int);
            if i == 0 {
                message.append("* ");
            } else {
                message.append("\n* ");
            }
            message.append(self.errors[i].as_str());
            proof {
                let after = self.errors@.subrange(0, i + 1);
                assert(after.drop_last() =~= before);
                assert(after.last() == self.errors@[i as int]);
                if i == 0 {
                    assert(after.len() == 1);
                    assert(after[0] == self.errors@[0]);
                    assert(error_lines(before) =~= Seq::<char>::empty());
                }
            }
            i = i + 1;
        }
        assert(self.errors@.subrange(0, self.errors@.len() as int) =~= self.errors@);
        self.errors = Vec::new();
        self.flush_time = None;
        self.last_flush_time = Some(now);
        Some(message)
    }

    /// Takes the batch when it is due at moment `now`. Two emails sent this way are always at
    /// least one sending period apart.
    pub fn flush_if_due(&mut self, now: u64) -> (r: Option<String>)
        requires
            old(self).wf(),
            now <= MAX_INSTANT_MS,
        ensures
            final(self).wf(),
            r is Some ==> old(self).flush_at() is Some && now >= old(self).flush_at()->0,
            r is Some && old(self).last_sent() is Some ==> now >= old(self).last_sent()->0
                + MIN_EMAIL_SENDING_PERIOD_MS,
            r is Some ==> final(self).last_sent() == Some(now),
            r matches Some(m) ==> m@ == batch_message(old(self).errors_view()),
            r is None ==> *final(self) == *old(self),
            old(self).flush_at() is Some && now >= old(self).flush_at()->0 ==> r is Some,
    {
        match self.flush_time {
            Some(t) => if now >= t {
                self.flush(now)
            } else {
                None
            },
            None => None,
        }
    }
}

/// Whenever a batch may leave on time, at least one sending period has passed since the
/// last email: a log that holds its invariant never sends twice within the period.
pub proof fn lemma_sends_apart(log: EmailLog, now: u64)
    requires
        log.wf(),
        log.flush_at() is Some,
        now >= log.flush_at()->0,
    ensures
        log.last_sent() is Some ==> now >= log.last_sent()->0 + MIN_EMAIL_SENDING_PERIOD_MS,
{
}

} // verus!
