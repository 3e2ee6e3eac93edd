//! Styling of node titles: which part of a title gets which colour.
use crate::decimal;
use crate::delay;
use crate::delay::{Labels, TrayDelayColor, TrayDelayFormatter, TrayDelayState, TrayLabels};
use crate::text;
use vstd::prelude::*;

verus! {

/// A coloured range of a title, in UTF-16 units.
#[derive(Debug, Clone, Copy, PartialEq, Eq, Structural)]
pub struct TrayColoredRange {
    pub start: usize,
    pub len: usize,
    pub color: TrayDelayColor,
}

/// A title as it is to be drawn.
#[derive(Debug, Clone, PartialEq, Eq)]
pub struct TrayStyledTitle {
    pub title: String,
    /// Length of the title in UTF-16 units.
    pub full_len: usize,
    /// The range with a colour of its own, if there is one.
    pub colored: Option<TrayColoredRange>,
}

/// A title as it is to be drawn: its text, its length, and start, length and colour of the range
/// with a colour of its own.
pub struct StyledTitle {
    pub title: Seq<char>,
    pub full_len: nat,
    pub colored: Option<(nat, nat, TrayDelayColor)>,
}

impl View for TrayStyledTitle {
    type V = StyledTitle;

    open spec fn view(&self) -> StyledTitle {
        StyledTitle {
            title: self.title@,
            full_len: self.full_len as nat,
            colored: match self.colored {
                Some(range) => Some((range.start as nat, range.len as nat, range.color)),
                None => None,
            },
        }
    }
}

/// The state that a shown delay text stands for: a number, with or without unit, is a value, then
/// come the dash and the known words, and anything else is an error.
pub open spec fn state_of_text(delay_text: Seq<char>, labels: Labels) -> TrayDelayState {
    match decimal::parsed(text::without_suffixes(delay_text, seq!['m', 's'])) {
        Some(delay) => TrayDelayState::Value(delay),
        None => if delay_text == seq!['-'] {
            TrayDelayState::Unknown
        } else if delay_text == labels.testing {
            TrayDelayState::Testing
        } else if delay_text == labels.timeout {
            TrayDelayState::Timeout
        } else {
            TrayDelayState::Error
        },
    }
}

/// A title with a delay text behind `name`, drawn in the colour of `state`. The default colour is
/// no colour of its own.
pub open spec fn styled(name: Seq<char>, state: TrayDelayState, labels: Labels) -> StyledTitle {
    let delay_text = delay::state_text(state, labels);
    let title = delay::title_text(name, delay_text);
    let color = delay::state_color(state);
    StyledTitle {
        title,
        full_len: text::utf16_length(title),
        colored: if color is Default {
            None
        } else {
            Some((text::utf16_length(name) + 1, text::utf16_length(delay_text), color))
        },
    }
}

/// How an entry with a title is drawn. Only a title with a tab is that of a node; its last tab
/// separates the name from the delay text.
pub open spec fn styled_title(title: Seq<char>, labels: Labels) -> Option<StyledTitle> {
    match text::split_last(title, '\t') {
        Some((name, delay_text)) => Some(styled(name, state_of_text(delay_text, labels), labels)),
        None => None,
    }
}

/// Styler of the proxy menu.
pub struct TrayProxyMenuStyler;

impl TrayProxyMenuStyler {
    /// How an entry with a title is drawn. Entries that are no nodes are left alone.
    pub fn style_item(title: &str, labels: &TrayLabels) -> (item: Option<TrayStyledTitle>)
        ensures
            match item {
                Some(item) => Some(item@),
                None => None,
            } == styled_title(title@, labels@),
    {
        match text::split_at_last(title, '\t') {
            Some((proxy, delay_text)) => {
                let display = TrayDelayFormatter::display(
                    Self::state_from_delay_text(delay_text, labels),
                    labels,
                );
                let parts = TrayDelayFormatter::node_title(proxy, &display);
                Some(
                    Self::build_attributed_title(
                        parts.title,
                        parts.delay_start,
                        parts.delay_len,
                        display.color,
                    ),
                )
            },
            None => None,
        }
    }

    /// The state that a shown delay text stands for.
    pub fn state_from_delay_text(delay_text: &str, labels: &TrayLabels) -> (state: TrayDelayState)
        ensures
            state == state_of_text(delay_text@, labels@),
    {
        proof {
            reveal_strlit("ms");
            reveal_strlit("-");
            assert("ms"@ =~= seq!['m', 's']);
            assert("-"@ =~= seq!['-']);
        }
        match decimal::parse_u32(text::trim_suffixes(delay_text, "ms")) {
            Some(delay) => TrayDelayState::Value(delay),
            None => if text::same_text(delay_text, "-") {
                TrayDelayState::Unknown
            } else if text::same_text(delay_text, labels.testing.as_str()) {
                TrayDelayState::Testing
            } else if text::same_text(delay_text, labels.timeout.as_str()) {
                TrayDelayState::Timeout
            } else {
                TrayDelayState::Error
            },
        }
    }

    /// A title whose delay text is drawn in its colour. The default colour adds nothing.
    pub fn build_attributed_title(
        title: String,
        delay_start: usize,
        delay_len: usize,
        color: TrayDelayColor,
    ) -> (styled: TrayStyledTitle)
        ensures
            styled.title@ == title@,
            styled.full_len == text::utf16_length(title@),
            styled.colored == (if color is Default {
                None
            } else {
                Some(TrayColoredRange { start: delay_start, len: delay_len, color })
            }),
    {
        let full_len = text::utf16_len(title.as_str());
        let colored = if color != TrayDelayColor::Default {
            Some(TrayColoredRange { start: delay_start, len: delay_len, color })
        } else {
            None
        };
        TrayStyledTitle { title, full_len, colored }
    }
}

/// A word that no number or dash can be taken for.
pub open spec fn is_word(label: Seq<char>) -> bool {
    &&& decimal::parsed(text::without_suffixes(label, seq!['m', 's'])) is None
    &&& label != seq!['-']
}

/// Whether the text of a state tells it from all other states: that of a value and the dash always
/// do, a word has to be one, and to differ from the words that are looked at before it.
pub open spec fn is_readable(state: TrayDelayState, labels: Labels) -> bool {
    match state {
        TrayDelayState::Unknown => true,
        TrayDelayState::Value(_) => true,
        TrayDelayState::Testing => is_word(labels.testing),
        TrayDelayState::Timeout => is_word(labels.timeout) && labels.timeout != labels.testing,
        TrayDelayState::Error => {
            &&& is_word(labels.error)
            &&& labels.error != labels.testing
            &&& labels.error != labels.timeout
        },
    }
}

/// The shown text of a state reads back as that state exactly where it is readable. A value and
/// the unknown state always are, whatever the words.
pub proof fn shown_text_reads_back(state: TrayDelayState, labels: Labels)
    ensures
        state_of_text(delay::state_text(state, labels), labels) == state <==> is_readable(
            state,
            labels,
        ),
        state is Value || state is Unknown ==> is_readable(state, labels),
{
    let unit = seq!['m', 's'];
    match state {
        TrayDelayState::Value(value) => {
            let digits = decimal::numeral(value as nat);
            let shown = digits + unit;
            decimal::lemma_numeral(value as nat);
            decimal::numeral_round_trip(value);
            assert(shown.subrange(digits.len() as int, shown.len() as int) =~= unit);
            assert(unit.is_suffix_of(shown));
            assert(shown.take(shown.len() - unit.len()) =~= digits);
            assert(!unit.is_suffix_of(digits)) by {
                assert(decimal::is_digit(digits[digits.len() - 1]));
                if unit.is_suffix_of(digits) {
                    assert(digits.subrange(digits.len() - 2, digits.len() as int)[1] == 's');
                }
            }
            reveal_with_fuel(text::without_suffixes, 2);
            assert(text::without_suffixes(shown, unit) == digits);
        },
        TrayDelayState::Unknown => {
            let dash = seq!['-'];
            assert(text::without_suffixes(dash, unit) == dash);
            assert(!decimal::is_digit(dash[0]));
            assert(!decimal::all_digits(dash));
        },
        _ => {},
    }
}

/// Whether a state is shown like the one that its text reads back as: with the same text and in the
/// same colour class.
pub open spec fn keeps_its_look(state: TrayDelayState, labels: Labels) -> bool {
    let read = state_of_text(delay::state_text(state, labels), labels);
    &&& delay::state_text(read, labels) == delay::state_text(state, labels)
    &&& delay::state_color(read) == delay::state_color(state)
}

/// Styling a node title that the menu builder made keeps its text and colours its delay, exactly
/// where the state keeps its look, as every readable one does. The range then starts behind the tab,
/// ends with the title, and has the colour of the state. The delay text must hold no tab.
pub proof fn styling_keeps_node_titles(name: Seq<char>, state: TrayDelayState, labels: Labels)
    requires
        !delay::state_text(state, labels).contains('\t'),
    ensures
        styled_title(delay::title_text(name, delay::state_text(state, labels)), labels) == Some(
            styled(name, state, labels),
        ) <==> keeps_its_look(state, labels),
        is_readable(state, labels) ==> keeps_its_look(state, labels),
        styled(name, state, labels).title == delay::title_text(
            name,
            delay::state_text(state, labels),
        ),
        styled(name, state, labels).colored matches Some((start, len, color)) ==> {
            &&& start == text::utf16_length(name) + 1
            &&& start + len == styled(name, state, labels).full_len
            &&& color == delay::state_color(state)
        },
{
    let delay_text = delay::state_text(state, labels);
    let title = delay::title_text(name, delay_text);
    let at = name.len() as int;
    delay::delay_range_ends_title(name, delay_text);
    assert(title[at] == '\t');
    assert forall|i: int| at < i < title.len() implies title[i] != '\t' by {
        assert(title[i] == delay_text[i - at - 1]);
    }
    text::lemma_last_position(title, '\t', at);
    assert(title.take(at) =~= name);
    assert(title.skip(at + 1) =~= delay_text);
    shown_text_reads_back(state, labels);
    let read = state_of_text(delay_text, labels);
    delay::delay_range_ends_title(name, delay::state_text(read, labels));
}

/// The text of a value and that of the unknown state hold no tab.
pub proof fn values_hold_no_tab(state: TrayDelayState, labels: Labels)
    requires
        state is Value || state is Unknown,
    ensures
        !delay::state_text(state, labels).contains('\t'),
{
    if let TrayDelayState::Value(value) = state {
        let digits = decimal::numeral(value as nat);
        let shown = delay::state_text(state, labels);
        decimal::lemma_numeral(value as nat);
        assert forall|i: int| 0 <= i < shown.len() implies shown[i] != '\t' by {
            if i < digits.len() {
                assert(decimal::is_digit(digits[i]));
            }
        }
    }
}

/// What a delay text stands for: a number with any copies of the unit behind it is that value.
pub proof fn numbers_with_units_are_values(text: Seq<char>, labels: Labels)
    ensures
        (forall|rest: Seq<char>| text != #[trigger] (rest + "ms"@)) ==> match decimal::parsed(text) {
            Some(delay) => {
                &&& state_of_text(text, labels) == TrayDelayState::Value(delay)
                &&& state_of_text(text + "ms"@, labels) == TrayDelayState::Value(delay)
            },
            None => !(state_of_text(text, labels) is Value) && !(state_of_text(
                text + "ms"@,
                labels,
            ) is Value),
        },
        state_of_text(text, labels) matches TrayDelayState::Value(delay) ==> state_of_text(
            text + "ms"@,
            labels,
        ) == TrayDelayState::Value(delay),
        state_of_text(text + "ms"@, labels) matches TrayDelayState::Value(delay) ==> state_of_text(
            text,
            labels,
        ) == TrayDelayState::Value(delay),
{
    reveal_strlit("ms");
    assert("ms"@ =~= seq!['m', 's']);
    text::suffixes_are_dropped_one_by_one(text, "ms"@);
}

/// A text that is no value: the dash stands for the unknown state, then come the words for a test
/// and for a timeout, and anything else is an error. The words are those of the user.
pub proof fn words_are_states(text: Seq<char>, labels: TrayLabels)
    requires
        !(state_of_text(text, labels@) is Value),
    ensures
        text == "-"@ ==> state_of_text(text, labels@) == TrayDelayState::Unknown,
        text != "-"@ && text == labels.testing@ ==> state_of_text(text, labels@)
            == TrayDelayState::Testing,
        text != "-"@ && text != labels.testing@ && text == labels.timeout@ ==> state_of_text(
            text,
            labels@,
        ) == TrayDelayState::Timeout,
        text != "-"@ && text != labels.testing@ && text != labels.timeout@ ==> state_of_text(
            text,
            labels@,
        ) == TrayDelayState::Error,
{
    reveal_strlit("-");
    assert("-"@ =~= seq!['-']);
}

/// Every title with a tab is styled. What stands behind its last tab is replaced by the text of the
/// state that it stands for. It is coloured exactly where that state does not have the default
/// colour, from behind the tab to the end of the title, and in the colour of the state.
pub proof fn titles_with_a_tab_are_styled(name: Seq<char>, delay_text: Seq<char>, labels: Labels)
    requires
        !delay_text.contains('\t'),
    ensures
        ({
            let state = state_of_text(delay_text, labels);
            let shown = delay::state_text(state, labels);
            let drawn = styled_title(name + seq!['\t'] + delay_text, labels);
            &&& drawn is Some
            &&& drawn->0.title == name + seq!['\t'] + shown
            &&& drawn->0.full_len == text::utf16_length(name) + 1 + text::utf16_length(shown)
            &&& state == TrayDelayState::Unknown ==> drawn->0.colored is None
            &&& state != TrayDelayState::Unknown ==> drawn->0.colored == Some(
                (
                    text::utf16_length(name) + 1,
                    text::utf16_length(shown),
                    delay::state_color(state),
                ),
            )
        }),
        styled_title(delay_text, labels) is None,
{
    let shown = delay::state_text(state_of_text(delay_text, labels), labels);
    text::last_split_parts(name, '\t', delay_text);
    delay::delay_range_ends_title(name, shown);
    assert(delay::title_text(name, shown) =~= name + seq!['\t'] + shown);
    delay::colors_of_open_and_failed_states(state_of_text(delay_text, labels));
}

/// The title of a node that was measured is styled with its own delay: the title stays, and the
/// delay gets a range of its own behind the tab, as long as the number and the unit, in the colour
/// of the delay, whatever the words are.
pub proof fn measured_titles_get_their_color(name: Seq<char>, delay: u32, labels: Labels)
    ensures
        ({
            let shown = delay::state_text(TrayDelayState::Value(delay), labels);
            let title = name + seq!['\t'] + shown;
            let drawn = styled_title(title, labels);
            &&& drawn is Some
            &&& drawn->0.title == title
            &&& drawn->0.full_len == text::utf16_length(title)
            &&& drawn->0.colored is Some
            &&& drawn->0.colored matches Some((start, len, color)) && {
                &&& start == text::utf16_length(name) + 1
                &&& start + len == drawn->0.full_len
                &&& color == TrayDelayColor::Success <==> delay < 250
                &&& color == TrayDelayColor::Primary <==> 250 <= delay < 400
                &&& color == TrayDelayColor::Warning <==> 400 <= delay < 10_000
                &&& color == TrayDelayColor::Error <==> delay >= 10_000
            }
        }),
{
    let state = TrayDelayState::Value(delay);
    let shown = delay::state_text(state, labels);
    values_hold_no_tab(state, labels);
    shown_text_reads_back(state, labels);
    titles_with_a_tab_are_styled(name, shown, labels);
    delay::delay_range_ends_title(name, shown);
    assert(delay::title_text(name, shown) =~= name + seq!['\t'] + shown);
    delay::value_colors_in_numbers(delay);
}

/// The view of a styled title keeps its text, its length and its range.
pub proof fn styled_view_keeps_its_parts(item: TrayStyledTitle)
    ensures
        item@.title == item.title@,
        item@.full_len == item.full_len,
        item@.colored is Some <==> item.colored is Some,
        item.colored matches Some(range) ==> item@.colored == Some(
            (range.start as nat, range.len as nat, range.color),
        ),
{
}

} // verus!
