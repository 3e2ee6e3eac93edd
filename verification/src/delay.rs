//! Delay states of proxy nodes, and how a menu shows them.
use crate::decimal;
use crate::text;
use vstd::prelude::*;

verus! {

/// Delays above this many milliseconds report a failed measurement.
pub const MAX_DELAY_MS: u32 = 100_000;

/// Colour class of a shown delay.
#[derive(Debug, Clone, Copy, PartialEq, Eq, Structural)]
pub enum TrayDelayColor {
    Default,
    Success,
    Primary,
    Warning,
    Error,
}

/// What is known of the delay of a node.
#[derive(Debug, Clone, Copy, PartialEq, Eq, Structural)]
pub enum TrayDelayState {
    /// Never measured.
    Unknown,
    /// A measurement is under way.
    Testing,
    /// The node did not answer in time.
    Timeout,
    /// The measurement failed.
    Error,
    /// The measured delay in milliseconds.
    Value(u32),
}

/// The words that the proxy menu shows, in the language of the user.
#[derive(Debug, Clone, PartialEq, Eq)]
pub struct TrayLabels {
    /// Title of the delay test entry.
    pub delay_test: String,
    /// Shown while a measurement is under way.
    pub testing: String,
    /// Shown for a node that did not answer in time.
    pub timeout: String,
    /// Shown for a failed measurement.
    pub error: String,
}

/// The words of the proxy menu as character sequences.
pub struct Labels {
    pub delay_test: Seq<char>,
    pub testing: Seq<char>,
    pub timeout: Seq<char>,
    pub error: Seq<char>,
}

impl View for TrayLabels {
    type V = Labels;

    open spec fn view(&self) -> Labels {
        Labels {
            delay_test: self.delay_test@,
            testing: self.testing@,
            timeout: self.timeout@,
            error: self.error@,
        }
    }
}

/// A delay as shown: its text and its colour class.
#[derive(Debug, Clone, PartialEq, Eq)]
pub struct TrayDelayDisplay {
    pub text: String,
    pub color: TrayDelayColor,
}

/// A node title, and where the delay stands in it, in UTF-16 units.
#[derive(Debug, Clone, PartialEq, Eq)]
pub struct TrayProxyTitleParts {
    pub title: String,
    pub delay_start: usize,
    pub delay_len: usize,
}

/// The state that a measured delay leads to: none at all or one that reaches the timeout is a
/// timeout, one beyond the measurable range is an error, any other is a value.
pub open spec fn measured_state(delay: u32, timeout: u32) -> TrayDelayState {
    if delay > MAX_DELAY_MS {
        TrayDelayState::Error
    } else if delay == 0 || delay >= timeout {
        TrayDelayState::Timeout
    } else {
        TrayDelayState::Value(delay)
    }
}

/// The colour class of a measured delay.
pub open spec fn value_color(delay: u32) -> TrayDelayColor {
    if delay < 250 {
        TrayDelayColor::Success
    } else if delay < 400 {
        TrayDelayColor::Primary
    } else if delay < 10_000 {
        TrayDelayColor::Warning
    } else {
        TrayDelayColor::Error
    }
}

/// The text shown for a state.
pub open spec fn state_text(state: TrayDelayState, labels: Labels) -> Seq<char> {
    match state {
        TrayDelayState::Unknown => seq!['-'],
        TrayDelayState::Testing => labels.testing,
        TrayDelayState::Timeout => labels.timeout,
        TrayDelayState::Error => labels.error,
        TrayDelayState::Value(delay) => decimal::numeral(delay as nat) + seq!['m', 's'],
    }
}

/// The colour class shown for a state.
pub open spec fn state_color(state: TrayDelayState) -> TrayDelayColor {
    match state {
        TrayDelayState::Unknown => TrayDelayColor::Default,
        TrayDelayState::Testing => TrayDelayColor::Primary,
        TrayDelayState::Timeout => TrayDelayColor::Error,
        TrayDelayState::Error => TrayDelayColor::Error,
        TrayDelayState::Value(delay) => value_color(delay),
    }
}

/// The title of a node: its name, a tab and its delay text.
pub open spec fn title_text(name: Seq<char>, delay_text: Seq<char>) -> Seq<char> {
    name.push('\t') + delay_text
}

/// Formatter of delays and node titles.
pub struct TrayDelayFormatter;

impl TrayDelayFormatter {
    /// The text and colour class of a state.
    pub fn display(state: TrayDelayState, labels: &TrayLabels) -> (display: TrayDelayDisplay)
        ensures
            display.text@ == state_text(state, labels@),
            display.color == state_color(state),
    {
        match state {
            TrayDelayState::Unknown => {
                proof {
                    reveal_strlit("-");
                    assert("-"@ =~= seq!['-']);
                }
                TrayDelayDisplay { text: "-".to_owned(), color: TrayDelayColor::Default }
            },
            TrayDelayState::Testing => TrayDelayDisplay {
                text: labels.testing.clone(),
                color: TrayDelayColor::Primary,
            },
            TrayDelayState::Timeout => TrayDelayDisplay {
                text: labels.timeout.clone(),
                color: TrayDelayColor::Error,
            },
            TrayDelayState::Error => TrayDelayDisplay {
                text: labels.error.clone(),
                color: TrayDelayColor::Error,
            },
            TrayDelayState::Value(delay) => {
                let mut text = String::new();
                decimal::append_numeral(&mut text, delay);
                text.append("ms");
                proof {
                    reveal_strlit("ms");
                    assert("ms"@ =~= seq!['m', 's']);
                    assert(text@ =~= decimal::numeral(delay as nat) + seq!['m', 's']);
                }
                TrayDelayDisplay { text, color: Self::delay_color(delay) }
            },
        }
    }

    /// The state that a measured delay leads to under a timeout.
    pub fn state_from_delay(delay: u32, timeout: u32) -> (state: TrayDelayState)
        ensures
            state == measured_state(delay, timeout),
    {
        if delay == 0 || (delay >= timeout && delay <= MAX_DELAY_MS) {
            TrayDelayState::Timeout
        } else if delay > MAX_DELAY_MS {
            TrayDelayState::Error
        } else {
            TrayDelayState::Value(delay)
        }
    }

    /// The title of a node with the range of its delay text.
    pub fn node_title(proxy_name: &str, display: &TrayDelayDisplay) -> (parts: TrayProxyTitleParts)
        ensures
            parts.title@ == title_text(proxy_name@, display.text@),
            parts.delay_start == text::utf16_length(proxy_name@) + 1,
            parts.delay_len == text::utf16_length(display.text@),
    {
        let mut title = proxy_name.to_owned();
        title.append("\t");
        title.append(display.text.as_str());
        proof {
            reveal_strlit("\t");
            assert(title@ =~= title_text(proxy_name@, display.text@));
            delay_range_ends_title(proxy_name@, display.text@);
        }
        // The title is in memory, so its length bounds every position in it.
        let _title_len = text::utf16_len(title.as_str());
        let delay_start = text::utf16_len(proxy_name) + 1;
        let delay_len = text::utf16_len(display.text.as_str());
        TrayProxyTitleParts { title, delay_start, delay_len }
    }

    /// The colour class of a measured delay.
    pub fn delay_color(delay: u32) -> (color: TrayDelayColor)
        ensures
            color == value_color(delay),
    {
        if delay >= 10_000 {
            TrayDelayColor::Error
        } else if delay >= 400 {
            TrayDelayColor::Warning
        } else if delay >= 250 {
            TrayDelayColor::Primary
        } else {
            TrayDelayColor::Success
        }
    }

    /// The length of a text in UTF-16 units.
    pub fn utf16_len(text: &str) -> (units: usize)
        ensures
            units == text::utf16_length(text@),
    {
        text::utf16_len(text)
    }
}

/// In a node title the delay text is what stands behind the tab after the name, and its range
/// reaches exactly to the end of the title.
pub proof fn delay_range_ends_title(name: Seq<char>, delay_text: Seq<char>)
    ensures
        title_text(name, delay_text).skip(name.len() as int + 1) == delay_text,
        title_text(name, delay_text).take(name.len() as int + 1) == name.push('\t'),
        text::utf16_length(name.push('\t')) == text::utf16_length(name) + 1,
        text::utf16_length(title_text(name, delay_text)) == text::utf16_length(name) + 1
            + text::utf16_length(delay_text),
{
    let title = title_text(name, delay_text);
    assert(title.skip(name.len() as int + 1) =~= delay_text);
    assert(title.take(name.len() as int + 1) =~= name.push('\t'));
    assert(name.push('\t').drop_last() =~= name);
    text::lemma_utf16_concat(name.push('\t'), delay_text);
}

/// A measurement ends in a timeout, an error or a value, never in an open state, and a value lies
/// above zero, below the timeout and within the measurable range.
pub proof fn measured_states_are_final(delay: u32, timeout: u32)
    ensures
        !(measured_state(delay, timeout) is Unknown),
        !(measured_state(delay, timeout) is Testing),
        measured_state(delay, timeout) matches TrayDelayState::Value(value) ==> {
            &&& value == delay
            &&& 0 < value < timeout
            &&& value <= MAX_DELAY_MS
        },
{
}

/// The place of a colour class in the order from the best to the worst.
pub open spec fn color_rank(color: TrayDelayColor) -> int {
    match color {
        TrayDelayColor::Default => 0,
        TrayDelayColor::Success => 1,
        TrayDelayColor::Primary => 2,
        TrayDelayColor::Warning => 3,
        TrayDelayColor::Error => 4,
    }
}

/// A slower node never gets a better colour class than a faster one.
pub proof fn colors_follow_delays(delay: u32, slower: u32)
    requires
        delay <= slower,
    ensures
        color_rank(value_color(delay)) <= color_rank(value_color(slower)),
{
}

/// The outcome of a measurement in numbers. A value comes back as it was measured, below the
/// timeout and up to a hundred seconds; beyond these an error stands; all else is a timeout.
pub proof fn measured_delays_in_numbers(delay: u32, timeout: u32)
    ensures
        0 < delay < timeout && delay <= 100_000 ==> measured_state(delay, timeout)
            == TrayDelayState::Value(delay),
        delay == 0 ==> measured_state(delay, timeout) == TrayDelayState::Timeout,
        timeout <= delay <= 100_000 ==> measured_state(delay, timeout) == TrayDelayState::Timeout,
        delay > 100_000 ==> measured_state(delay, timeout) == TrayDelayState::Error,
{
}

/// The colour classes of values in numbers.
pub proof fn value_colors_in_numbers(delay: u32)
    ensures
        state_color(TrayDelayState::Value(delay)) == TrayDelayColor::Success <==> delay < 250,
        state_color(TrayDelayState::Value(delay)) == TrayDelayColor::Primary <==> 250 <= delay
            < 400,
        state_color(TrayDelayState::Value(delay)) == TrayDelayColor::Warning <==> 400 <= delay
            < 10_000,
        state_color(TrayDelayState::Value(delay)) == TrayDelayColor::Error <==> delay >= 10_000,
        value_color(delay) == state_color(TrayDelayState::Value(delay)),
{
}

/// A state has the default colour exactly where nothing is known. A test under way has the primary
/// colour, and a measurement without a value that of an error.
pub proof fn colors_of_open_and_failed_states(state: TrayDelayState)
    ensures
        state_color(state) == TrayDelayColor::Default <==> state == TrayDelayState::Unknown,
        state == TrayDelayState::Testing ==> state_color(state) == TrayDelayColor::Primary,
        state == TrayDelayState::Timeout || state == TrayDelayState::Error ==> state_color(state)
            == TrayDelayColor::Error,
{
}

/// The text of a value is its number in digits, without a leading zero, and the unit behind it.
pub proof fn value_texts_are_numbers_with_unit(delay: u32, labels: Labels)
    ensures
        ({
            let shown = state_text(TrayDelayState::Value(delay), labels);
            let digits = shown.take(shown.len() - 2);
            &&& shown.len() > 2
            &&& shown.skip(shown.len() - 2) == "ms"@
            &&& decimal::parsed(digits) == Some(delay)
            &&& forall|i: int| 0 <= i < digits.len() ==> '0' <= #[trigger] digits[i] <= '9'
            &&& digits[0] == '0' ==> delay == 0 && digits.len() == 1
        }),
{
    let shown = state_text(TrayDelayState::Value(delay), labels);
    let digits = decimal::numeral(delay as nat);
    reveal_strlit("ms");
    decimal::lemma_numeral(delay as nat);
    decimal::numeral_round_trip(delay);
    assert(shown.take(shown.len() - 2) =~= digits);
    assert(shown.skip(shown.len() - 2) =~= "ms"@);
    assert forall|i: int| 0 <= i < digits.len() implies '0' <= #[trigger] digits[i] <= '9' by {
        assert(decimal::is_digit(digits[i]));
    }
    lemma_no_leading_zero(delay as nat);
}

/// A numeral starts with a zero only for zero itself.
proof fn lemma_no_leading_zero(value: nat)
    ensures
        decimal::numeral(value).len() > 0,
        decimal::numeral(value)[0] == '0' ==> value == 0 && decimal::numeral(value).len() == 1,
    decreases value,
{
    if value >= 10 {
        lemma_no_leading_zero(value / 10);
        assert(decimal::numeral(value)[0] == decimal::numeral(value / 10)[0]);
    } else {
        assert(decimal::digit_value(decimal::digit(value)) == value);
    }
}

/// The text of every other state: a dash where nothing is known, and the user's own word for a test
/// under way, a timeout and an error.
pub proof fn texts_of_states_without_value(labels: TrayLabels)
    ensures
        state_text(TrayDelayState::Unknown, labels@) == "-"@,
        state_text(TrayDelayState::Testing, labels@) == labels.testing@,
        state_text(TrayDelayState::Timeout, labels@) == labels.timeout@,
        state_text(TrayDelayState::Error, labels@) == labels.error@,
        labels@.delay_test == labels.delay_test@,
{
    reveal_strlit("-");
    assert("-"@ =~= seq!['-']);
}

/// A title is the name, a tab and the delay text, and nothing else.
pub proof fn titles_are_name_tab_delay(name: Seq<char>, delay_text: Seq<char>)
    ensures
        title_text(name, delay_text) == name + "\t"@ + delay_text,
{
    reveal_strlit("\t");
    assert(title_text(name, delay_text) =~= name + "\t"@ + delay_text);
}

} // verus!
