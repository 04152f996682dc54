//! The text fields of the settings window and how their contents become
//! settings: the target address and the send interval.

use vstd::prelude::*;

use crate::addr::TargetAddr;
use crate::socket::SocketState;

verus! {

/// The largest number of nanoseconds a `std::time::Duration` holds.
pub const MAX_DURATION_NANOS: u128 = 18_446_744_073_709_551_615_999_999_999;

/// What `humantime::parse_duration` makes of a text: the duration in
/// nanoseconds, or the text of its error.
pub uninterp spec fn humantime_parse(s: Seq<char>) -> Result<int, Seq<char>>;

/// The text `humantime::format_duration` gives for a duration in nanoseconds.
pub uninterp spec fn humantime_format(nanos: int) -> Seq<char>;

/// A text read as a duration of `nanos` nanoseconds.
pub open spec fn parsed_as(nanos: int) -> Result<int, Seq<char>> {
    Ok(nanos)
}

/// A text refused, with the error's text.
pub open spec fn rejected_with(message: Seq<char>) -> Result<int, Seq<char>> {
    Err(message)
}

/// The number of ASCII digits in a text.
pub open spec fn digit_count(s: Seq<char>) -> nat
    decreases s.len(),
{
    if s.len() == 0 {
        0
    } else {
        digit_count(s.drop_last()) + if '0' <= s.last() <= '9' {
            1nat
        } else {
            0nat
        }
    }
}

/// Texts with at most this many digits are parsed by the library.
///
/// With at most eleven digits every number in the text is below 10^11, so
/// the seconds that `humantime::parse_duration` adds up stay below 10^19 and
/// the `Duration::new` inside it cannot overflow; with more digits some
/// texts make it panic.
pub const MAX_INTERVAL_DIGITS: usize = 11;

/// Whether the interval text has at most [`MAX_INTERVAL_DIGITS`] digits.
pub fn interval_text_parsable(s: &str) -> (r: bool)
    ensures
        r == (digit_count(s@) <= MAX_INTERVAL_DIGITS),
{
    let n = s.unicode_len();
    let mut count: usize = 0;
    let mut i: usize = 0;
    while i < n
        invariant
            n == s@.len(),
            i <= n,
            count == digit_count(s@.take(i as int)),
            count <= i,
        decreases n - i,
    {
        let c = s.get_char(i);
        assert(s@.take(i + 1).drop_last() =~= s@.take(i as int));
        if '0' <= c && c <= '9' {
            count = count + 1;
        }
        i = i + 1;
    }
    assert(s@.take(n as int) =~= s@);
    count <= MAX_INTERVAL_DIGITS
}

/// Parses a human-readable duration with `humantime::parse_duration`.
///
/// Claims: the result is the one named by `humantime_parse` (the error as
/// its display text), a duration fits in a `Duration`, an empty text is an
/// error and `"0"` is zero, as the crate's source shows. Texts with many
/// digits are left out: on some of them the call panics (see
/// [`MAX_INTERVAL_DIGITS`]).
#[verifier::external_body]
fn parse_duration_nanos(s: &str) -> (r: Result<u128, String>)
    requires
        digit_count(s@) <= MAX_INTERVAL_DIGITS,
    ensures
        r is Ok ==> humantime_parse(s@) == parsed_as(r->Ok_0 as int),
        r is Ok ==> r->Ok_0 <= MAX_DURATION_NANOS,
        r is Err ==> humantime_parse(s@) == rejected_with(r->Err_0@),
        s@.len() == 0 ==> r is Err,
        s@ == seq!['0'] ==> r is Ok && r->Ok_0 == 0,
{
    match humantime::parse_duration(s) {
        Ok(d) => Ok(d.as_nanos()),
        Err(e) => Err(e.to_string()),
    }
}

/// Formats a duration with `humantime::format_duration`.
///
/// Claims: the text is the one named by `humantime_format`, and, as the
/// crate documents, `parse_duration` reads it back as the same duration.
#[verifier::external_body]
fn format_duration_text(secs: u64, subsec_nanos: u32) -> (r: String)
    requires
        subsec_nanos < 1_000_000_000,
    ensures
        r@ == humantime_format(secs * 1_000_000_000 + subsec_nanos),
        humantime_parse(r@) == parsed_as(secs * 1_000_000_000 + subsec_nanos),
{
    humantime::format_duration(std::time::Duration::new(secs, subsec_nanos)).to_string()
}

/// The human-readable text of a duration given in nanoseconds.
pub fn human(nanos: u128) -> (r: String)
    requires
        nanos <= MAX_DURATION_NANOS,
    ensures
        r@ == humantime_format(nanos as int),
        humantime_parse(r@) == parsed_as(nanos as int),
{
    let secs = nanos / 1_000_000_000;
    let sub = nanos % 1_000_000_000;
    assert(secs <= u64::MAX);
    format_duration_text(secs as u64, sub as u32)
}

/// The warning shown when the interval asked for is below the minimum.
pub open spec fn too_low_warning() -> Seq<char> {
    "Too low, using "@ + humantime_format(SocketState::MINIMUM_INTERVAL as int)
}

/// The larger of an interval and the minimum.
pub open spec fn clamp_interval(i: u128) -> u128 {
    if i < SocketState::MINIMUM_INTERVAL {
        SocketState::MINIMUM_INTERVAL
    } else {
        i
    }
}

/// The contents of the settings window's text fields and the messages
/// shown under them.
#[derive(Debug)]
pub struct Input {
    pub init: bool,
    pub target: String,
    pub target_error: Option<String>,
    pub interval: String,
    pub interval_error: Option<String>,
    pub interval_warning: Option<String>,
}

impl Default for Input {
    fn default() -> (r: Input)
        ensures
            !r.init,
            r.target@.len() == 0,
            r.target_error is None,
            r.interval@.len() == 0,
            r.interval_error is None,
            r.interval_warning is None,
    {
        Input {
            init: false,
            target: String::new(),
            target_error: None,
            interval: String::new(),
            interval_error: None,
            interval_warning: None,
        }
    }
}

impl Input {
    /// Fills the fields from the settings the first time the window is
    /// drawn: the target's text when one is configured, and the interval in
    /// human-readable form. Later calls change nothing.
    pub fn initialize(&mut self, socket: &SocketState, target_text: Option<String>)
        requires
            socket.interval <= MAX_DURATION_NANOS,
        ensures
            old(self).init ==> *final(self) == *old(self),
            !old(self).init ==> {
                &&& final(self).init
                &&& final(self).target == (match target_text {
                    Some(t) => t,
                    None => old(self).target,
                })
                &&& final(self).interval@ == humantime_format(socket.interval as int)
                &&& final(self).target_error == old(self).target_error
                &&& final(self).interval_error == old(self).interval_error
                &&& final(self).interval_warning == old(self).interval_warning
            },
    {
        if !self.init {
            self.init = true;
            if let Some(t) = target_text {
                self.target = t;
            }
            self.interval = human(socket.interval);
        }
    }

    /// Applies the target field, given what parsing it as a socket address
    /// gave: an empty field clears the target, an address replaces it, and
    /// an error is shown while the target stays as it was.
    pub fn apply_target(&mut self, socket: &mut SocketState, parsed: Result<TargetAddr, String>)
        ensures
            final(self).target == old(self).target,
            final(self).interval == old(self).interval,
            final(self).interval_error == old(self).interval_error,
            final(self).interval_warning == old(self).interval_warning,
            final(self).init == old(self).init,
            final(socket).interval == old(socket).interval,
            final(socket).auto_targets == old(socket).auto_targets,
            old(self).target@.len() == 0 ==> final(socket).target is None && final(self).target_error is None,
            old(self).target@.len() != 0 ==> match parsed {
                Ok(a) => final(socket).target == Some(a) && final(self).target_error is None,
                Err(e) => final(socket).target == old(socket).target && final(self).target_error
                    == Some(e),
            },
    {
        if self.target.as_str().is_empty() {
            socket.target = None;
            self.target_error = None;
        } else {
            match parsed {
                Ok(a) => {
                    socket.target = Some(a);
                    self.target_error = None;
                },
                Err(e) => {
                    self.target_error = Some(e);
                },
            }
        }
    }

    /// Applies the interval field, given what parsing it gave: a duration
    /// becomes the interval, raised to the minimum with a warning when it is
    /// below; an error is shown while the interval stays as it was.
    pub fn apply_interval(&mut self, socket: &mut SocketState, parsed: Result<u128, String>)
        ensures
            final(self).target == old(self).target,
            final(self).interval == old(self).interval,
            final(self).target_error == old(self).target_error,
            final(self).init == old(self).init,
            final(socket).target == old(socket).target,
            final(socket).auto_targets == old(socket).auto_targets,
            match parsed {
                Ok(i) => {
                    &&& final(socket).interval == clamp_interval(i)
                    &&& i < SocketState::MINIMUM_INTERVAL ==> final(socket).interval == SocketState::MINIMUM_INTERVAL
                    &&& i >= SocketState::MINIMUM_INTERVAL ==> final(socket).interval == i
                    &&& final(self).interval_error is None
                    &&& i < SocketState::MINIMUM_INTERVAL ==> (final(self).interval_warning matches Some(w) && w@ == too_low_warning())
                    &&& i >= SocketState::MINIMUM_INTERVAL ==> final(self).interval_warning is None
                },
                Err(e) => {
                    &&& final(socket).interval == old(socket).interval
                    &&& final(self).interval_error == Some(e)
                    &&& final(self).interval_warning == old(self).interval_warning
                },
            },
    {
        match parsed {
            Ok(i) => {
                if i < SocketState::MINIMUM_INTERVAL {
                    let mut w = String::new();
                    w.append("Too low, using ");
                    let min_text = human(SocketState::MINIMUM_INTERVAL);
                    w.append(min_text.as_str());
                    self.interval_warning = Some(w);
                } else {
                    self.interval_warning = None;
                }
                self.interval_error = None;
                socket.interval = if i < SocketState::MINIMUM_INTERVAL {
                    SocketState::MINIMUM_INTERVAL
                } else {
                    i
                };
            },
            Err(e) => {
                self.interval_error = Some(e);
            },
        }
    }

    /// Parses the interval field with `humantime` and applies it.
    pub fn apply_interval_text(&mut self, socket: &mut SocketState)
        requires
            digit_count(old(self).interval@) <= MAX_INTERVAL_DIGITS,
        ensures
            final(self).target == old(self).target,
            final(self).interval == old(self).interval,
            final(self).target_error == old(self).target_error,
            final(self).init == old(self).init,
            final(socket).target == old(socket).target,
            final(socket).auto_targets == old(socket).auto_targets,
            match humantime_parse(old(self).interval@) {
                Ok(i) => {
                    &&& final(socket).interval as int == if i < SocketState::MINIMUM_INTERVAL { SocketState::MINIMUM_INTERVAL as int } else { i }
                    &&& final(socket).interval <= MAX_DURATION_NANOS
                    &&& final(self).interval_error is None
                    &&& i < SocketState::MINIMUM_INTERVAL ==> (final(self).interval_warning matches Some(w) && w@ == too_low_warning())
                    &&& i >= SocketState::MINIMUM_INTERVAL ==> final(self).interval_warning is None
                },
                Err(e) => {
                    &&& final(socket).interval == old(socket).interval
                    &&& (final(self).interval_error matches Some(m) && m@ == e)
                    &&& final(self).interval_warning == old(self).interval_warning
                },
            },
    {
        let parsed = parse_duration_nanos(self.interval.as_str());
        self.apply_interval(socket, parsed);
    }

    /// What the window does with its fields after each frame: the target
    /// field (given what parsing it as a socket address gave), then the
    /// interval field.
    pub fn apply(&mut self, socket: &mut SocketState, parsed_target: Result<TargetAddr, String>)
        requires
            digit_count(old(self).interval@) <= MAX_INTERVAL_DIGITS,
        ensures
            final(self).target == old(self).target,
            final(self).interval == old(self).interval,
            final(self).init == old(self).init,
            final(socket).auto_targets == old(socket).auto_targets,
            old(self).target@.len() == 0 ==> final(socket).target is None && final(self).target_error is None,
            old(self).target@.len() != 0 ==> match parsed_target {
                Ok(a) => final(socket).target == Some(a) && final(self).target_error is None,
                Err(e) => final(socket).target == old(socket).target && final(self).target_error
                    == Some(e),
            },
            match humantime_parse(old(self).interval@) {
                Ok(i) => {
                    &&& final(socket).interval as int == if i < SocketState::MINIMUM_INTERVAL { SocketState::MINIMUM_INTERVAL as int } else { i }
                    &&& final(self).interval_error is None
                    &&& i < SocketState::MINIMUM_INTERVAL ==> (final(self).interval_warning matches Some(w) && w@ == too_low_warning())
                    &&& i >= SocketState::MINIMUM_INTERVAL ==> final(self).interval_warning is None
                },
                Err(e) => {
                    &&& final(socket).interval == old(socket).interval
                    &&& (final(self).interval_error matches Some(m) && m@ == e)
                    &&& final(self).interval_warning == old(self).interval_warning
                },
            },
    {
        self.apply_target(socket, parsed_target);
        self.apply_interval_text(socket);
    }
}


/// The interval that an accepted duration sets is never below the minimum,
/// equals the duration when that is not below it, and setting it again
/// changes nothing.
pub proof fn lemma_clamp_interval(i: u128)
    ensures
        i < SocketState::MINIMUM_INTERVAL ==> clamp_interval(i) == SocketState::MINIMUM_INTERVAL,
        clamp_interval(i) == i || clamp_interval(i) == SocketState::MINIMUM_INTERVAL,
        clamp_interval(i) >= SocketState::MINIMUM_INTERVAL,
        i >= SocketState::MINIMUM_INTERVAL ==> clamp_interval(i) == i,
        clamp_interval(clamp_interval(i)) == clamp_interval(i),
        clamp_interval(i) >= i,
{
}

} // verus!
