//! The runtime configuration and the `/config` command that reads and edits it.

use vstd::prelude::*;
use crate::text::{fields, lowercase, same_text, split_fields, to_lowercase};

verus! {

/// The tick interval, in seconds, of a configuration that nothing has set.
pub const DEFAULT_PING_INTERVAL: u64 = 60;

/// Why a text is no tick interval.
#[derive(Clone, Copy, PartialEq, Eq, Structural, Debug)]
pub enum IntervalError {
    /// The text is empty.
    Empty,
    /// A character is no decimal digit, or a sign stands alone.
    InvalidDigit,
    /// The number does not fit in 64 bits.
    TooLarge,
    /// The number is zero: an interval is positive.
    Zero,
}

/// The runtime configuration: the tick interval in seconds, which is
/// positive.
#[derive(Clone, Copy, PartialEq, Eq, Structural, Debug)]
pub struct BotConfig {
    ping_interval: u64,
}

/// What a `/config` message asks for.
#[derive(Clone, Debug, PartialEq, Eq)]
pub enum ConfigRequest {
    /// No argument: show how the command is used.
    Usage,
    /// `list`: show the configuration.
    List,
    /// `edit` with a field and a value.
    Edit { field: String, value: String },
    /// `edit` without both a field and a value.
    NotEnoughArguments,
    /// Any other first argument.
    InvalidInput,
}

/// What an edit did.
#[derive(Clone, Copy, PartialEq, Eq, Structural, Debug)]
pub enum EditOutcome {
    /// The interval was set to the value.
    Changed(u64),
    /// The value is no interval.
    InvalidValue(IntervalError),
    /// The field is not one of the configuration.
    UnknownField,
}

/// A `ConfigRequest` with its texts as sequences of characters.
pub enum ConfigRequestView {
    Usage,
    List,
    Edit { field: Seq<char>, value: Seq<char> },
    NotEnoughArguments,
    InvalidInput,
}

impl View for ConfigRequest {
    type V = ConfigRequestView;

    open spec fn view(&self) -> ConfigRequestView {
        match self {
            ConfigRequest::Usage => ConfigRequestView::Usage,
            ConfigRequest::List => ConfigRequestView::List,
            ConfigRequest::Edit { field, value } => ConfigRequestView::Edit {
                field: field@,
                value: value@,
            },
            ConfigRequest::NotEnoughArguments => ConfigRequestView::NotEnoughArguments,
            ConfigRequest::InvalidInput => ConfigRequestView::InvalidInput,
        }
    }
}

/// Whether `c` is a decimal digit.
pub open spec fn is_digit(c: char) -> bool {
    '0' <= c && c <= '9'
}

/// The value of a decimal digit.
pub open spec fn digit_value(c: char) -> nat {
    (c as u32 - '0' as u32) as nat
}

/// How many decimal digits a text starts with.
pub open spec fn digit_run(s: Seq<char>) -> nat
    decreases s.len(),
{
    if s.len() == 0 || !is_digit(s[0]) {
        0
    } else {
        1 + digit_run(s.drop_first())
    }
}

/// The number that a text of decimal digits writes.
pub open spec fn digits_value(s: Seq<char>) -> nat
    decreases s.len(),
{
    if s.len() == 0 {
        0
    } else {
        digits_value(s.drop_last()) * 10 + digit_value(s.last())
    }
}

/// A text without the plus sign that may lead it.
pub open spec fn unsigned_part(s: Seq<char>) -> Seq<char> {
    if s.len() > 0 && s[0] == '+' {
        s.drop_first()
    } else {
        s
    }
}

/// The tick interval that a text writes: decimal digits, after at most one
/// plus sign, for a positive number of 64 bits. Read from the left, the first
/// fault decides the error: a number that has outgrown 64 bits before any
/// other character came is too large, else a character that is no digit is an
/// invalid digit.
pub open spec fn interval_of(s: Seq<char>) -> Result<u64, IntervalError> {
    let body = unsigned_part(s);
    let run = digit_run(body) as int;
    let value = digits_value(body.take(run));
    if s.len() == 0 {
        Err(IntervalError::Empty)
    } else if body.len() == 0 {
        Err(IntervalError::InvalidDigit)
    } else if value > u64::MAX {
        Err(IntervalError::TooLarge)
    } else if run < body.len() {
        Err(IntervalError::InvalidDigit)
    } else if value == 0 {
        Err(IntervalError::Zero)
    } else {
        Ok(value as u64)
    }
}

/// What a `/config` message asks for. The message is read in lower case and
/// cut at single spaces; the first field is the command itself.
pub open spec fn request_of(text: Seq<char>) -> ConfigRequestView {
    let args = fields(lowercase(text));
    if args.len() <= 1 {
        ConfigRequestView::Usage
    } else if args[1] == "edit"@ {
        if args.len() >= 4 {
            ConfigRequestView::Edit { field: args[2], value: args[3] }
        } else {
            ConfigRequestView::NotEnoughArguments
        }
    } else if args[1] == "list"@ {
        ConfigRequestView::List
    } else {
        ConfigRequestView::InvalidInput
    }
}

/// What an edit of `field` to `value` does: only `ping_interval` can be
/// edited, and only to a tick interval.
pub open spec fn edit_of(field: Seq<char>, value: Seq<char>) -> EditOutcome {
    if field == "ping_interval"@ {
        match interval_of(value) {
            Ok(secs) => EditOutcome::Changed(secs),
            Err(e) => EditOutcome::InvalidValue(e),
        }
    } else {
        EditOutcome::UnknownField
    }
}

/// Reads a tick interval.
pub fn parse_interval(text: &str) -> (res: Result<u64, IntervalError>)
    ensures
        res == interval_of(text@),
{
    let t = crate::text::chars_of(text);
    if t.len() == 0 {
        return Err(IntervalError::Empty);
    }
    let first: usize = if t[0] == '+' {
        1
    } else {
        0
    };
    let ghost body = unsigned_part(text@);
    assert(body == t@.skip(first as int));
    if first == t.len() {
        return Err(IntervalError::InvalidDigit);
    }
    let mut value: u64 = 0;
    let mut i: usize = first;
    assert(body.take(0) == Seq::<char>::empty());
    while i < t.len()
        invariant
            first <= i <= t.len(),
            first <= 1,
            body == t@.skip(first as int),
            body == unsigned_part(text@),
            body.len() > 0,
            t@ == text@,
            forall|j: int| 0 <= j < i - first ==> is_digit(#[trigger] body[j]),
            value == digits_value(body.take(i - first)),
        decreases t.len() - i,
    {
        let c = t[i];
        let ghost n = i - first;
        assert(body[n] == c);
        if !('0' <= c && c <= '9') {
            proof {
                lemma_digit_run(body, n);
            }
            return Err(IntervalError::InvalidDigit);
        }
        let d: u64 = (c as u32 - '0' as u32) as u64;
        proof {
            lemma_digits_value_step(body, n);
        }
        if value > (u64::MAX - d) / 10 {
            proof {
                // the run of digits reaches at least to here, and its value only grows
                let run = digit_run(body) as int;
                assert(run > n) by {
                    if run <= n {
                        lemma_digit_run_bounds(body);
                        assert(is_digit(body[run]));
                    }
                }
                lemma_digit_run_bounds(body);
                lemma_digits_value_grows(body, n + 1, run);
                assert(digits_value(body.take(n + 1)) > u64::MAX);
            }
            return Err(IntervalError::TooLarge);
        }
        value = value * 10 + d;
        i += 1;
    }
    proof {
        lemma_digit_run(body, body.len() as int);
        assert(body.take(body.len() as int) == body);
    }
    if value == 0 {
        Err(IntervalError::Zero)
    } else {
        Ok(value)
    }
}

/// Reads what a `/config` message asks for.
pub fn parse_request(text: &str) -> (request: ConfigRequest)
    ensures
        request@ == request_of(text@),
{
    let input = to_lowercase(text);
    let mut args = split_fields(input.as_str());
    if args.len() <= 1 {
        return ConfigRequest::Usage;
    }
    if same_text(args[1].as_str(), "edit") {
        if args.len() >= 4 {
            let value = args.remove(3);
            let field = args.remove(2);
            ConfigRequest::Edit { field, value }
        } else {
            ConfigRequest::NotEnoughArguments
        }
    } else if same_text(args[1].as_str(), "list") {
        ConfigRequest::List
    } else {
        ConfigRequest::InvalidInput
    }
}

impl BotConfig {
    /// The tick interval, in seconds.
    pub closed spec fn interval(&self) -> u64 {
        self.ping_interval
    }

    /// The invariant of every configuration: the interval is positive.
    #[verifier::type_invariant]
    pub open spec fn wf(&self) -> bool {
        self.interval() > 0
    }

    /// A configuration with the given interval; zero is refused.
    pub fn with_interval(secs: u64) -> (res: Result<BotConfig, IntervalError>)
        ensures
            secs == 0 <==> res == Err::<BotConfig, IntervalError>(IntervalError::Zero),
            secs > 0 ==> res is Ok && res->Ok_0.interval() == secs && res->Ok_0.wf(),
    {
        if secs == 0 {
            Err(IntervalError::Zero)
        } else {
            Ok(BotConfig { ping_interval: secs })
        }
    }

    /// The tick interval, in seconds.
    pub fn ping_interval(&self) -> (secs: u64)
        ensures
            secs == self.interval(),
            secs > 0,
    {
        proof {
            use_type_invariant(self);
        }
        self.ping_interval
    }

    /// Edits one field. Only `ping_interval` exists, and only a positive
    /// number of seconds is taken for it; anything else leaves the
    /// configuration as it is and says why.
    pub fn edit(&mut self, field: &str, value: &str) -> (outcome: EditOutcome)
        ensures
            final(self).wf(),
            outcome == edit_of(field@, value@),
            outcome matches EditOutcome::Changed(secs) ==> final(self).interval() == secs,
            !(outcome is Changed) ==> *final(self) == *old(self),
    {
        proof {
            use_type_invariant(&*self);
        }
        if same_text(field, "ping_interval") {
            match parse_interval(value) {
                Ok(secs) => {
                    self.ping_interval = secs;
                    EditOutcome::Changed(secs)
                },
                Err(e) => EditOutcome::InvalidValue(e),
            }
        } else {
            EditOutcome::UnknownField
        }
    }
}

impl Default for BotConfig {
    /// The configuration that nothing has set: a tick every minute.
    fn default() -> (c: BotConfig)
        ensures
            c.interval() == DEFAULT_PING_INTERVAL,
            c.wf(),
    {
        BotConfig { ping_interval: DEFAULT_PING_INTERVAL }
    }
}

/// The value of a run of digits grows with the run.
proof fn lemma_digits_value_step(s: Seq<char>, n: int)
    requires
        0 <= n < s.len(),
    ensures
        digits_value(s.take(n + 1)) == digits_value(s.take(n)) * 10 + digit_value(s[n]),
{
    assert(s.take(n + 1).drop_last() == s.take(n));
    assert(s.take(n + 1).last() == s[n]);
}

/// A run of digits that is followed by a digit is one longer.
proof fn lemma_digit_run(s: Seq<char>, k: int)
    requires
        0 <= k <= s.len(),
        forall|j: int| 0 <= j < k ==> is_digit(#[trigger] s[j]),
        k == s.len() || !is_digit(s[k]),
    ensures
        digit_run(s) == k,
    decreases k,
{
    if k > 0 {
        let rest = s.drop_first();
        assert(is_digit(s[0]));
        assert forall|j: int| 0 <= j < k - 1 implies is_digit(#[trigger] rest[j]) by {
            assert(rest[j] == s[j + 1]);
        }
        lemma_digit_run(rest, k - 1);
    }
}

/// Digits beyond a value that has outgrown 64 bits keep it too large.
proof fn lemma_digits_value_grows(s: Seq<char>, a: int, b: int)
    requires
        0 <= a <= b <= s.len(),
    ensures
        digits_value(s.take(a)) <= digits_value(s.take(b)),
    decreases b - a,
{
    if a < b {
        lemma_digits_value_grows(s, a, b - 1);
        lemma_digits_value_step(s, b - 1);
    }
}

/// The run of digits stays within the text and ends before a character that
/// is no digit.
proof fn lemma_digit_run_bounds(s: Seq<char>)
    ensures
        0 <= digit_run(s) <= s.len(),
        forall|j: int| 0 <= j < digit_run(s) ==> is_digit(#[trigger] s[j]),
        digit_run(s) < s.len() ==> !is_digit(s[digit_run(s) as int]),
    decreases s.len(),
{
    if s.len() == 0 || !is_digit(s[0]) {
    } else {
        let rest = s.drop_first();
        lemma_digit_run_bounds(rest);
        assert forall|j: int| 0 <= j < digit_run(s) implies is_digit(#[trigger] s[j]) by {
            if j > 0 {
                assert(rest[j - 1] == s[j]);
            }
        }
        if digit_run(s) < s.len() {
            assert(rest[digit_run(rest) as int] == s[digit_run(s) as int]);
        }
    }
}

} // verus!
