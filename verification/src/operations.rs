//! Laws of the operations: what a call answers, told by what goes into it.
use crate::config;
use crate::delay;
use crate::delay::{
    TrayDelayColor, TrayDelayDisplay, TrayDelayFormatter, TrayDelayState, TrayLabels,
    TrayProxyTitleParts,
};
use crate::group_test;
use crate::group_test::{GroupDelayTest, GroupTestAction, GroupTestEvent, TestEvent, TestPhase};
use crate::latency;
use crate::latency::{GroupTestInput, TrayProxyLatencyController};
use crate::menu;
use crate::menu::{TrayProxyGroupOrder, TrayProxyMenuBuilder, TrayProxySubmenu};
use crate::menu_id;
use crate::menu_id::{TrayProxyMenuAction, TrayProxyMenuId};
use crate::menu_laws;
use crate::proxies::{Proxies, Proxy};
use crate::speed;
use crate::speed::{Connection, ProxyConnectionSpeed, ProxyConnectionSpeedSampler};
use crate::speed_task::{
    TraySpeedAction, TraySpeedController, TraySpeedLoop, TraySpeedReading, TraySpeedRound,
    TraySpeedSituation,
};
use crate::style;
use crate::style::{TrayProxyMenuStyler, TrayStyledTitle};
use crate::text;
use vstd::hash_map::StringHashMap;
use vstd::prelude::*;

verus! {

// ---------------------------------------------------------------------------------------------
// Delays
// ---------------------------------------------------------------------------------------------
/// A measured delay is a value below the timeout and up to a hundred seconds, a timeout where it is
/// zero or reaches the timeout, and an error beyond a hundred seconds.
pub proof fn delay_answers(delay: u32, timeout: u32, state: TrayDelayState)
    requires
        call_ensures(TrayDelayFormatter::state_from_delay, (delay, timeout), state),
    ensures
        0 < delay < timeout && delay <= 100_000 ==> state == TrayDelayState::Value(delay),
        delay == 0 || timeout <= delay <= 100_000 ==> state == TrayDelayState::Timeout,
        delay > 100_000 ==> state == TrayDelayState::Error,
{
    delay::measured_delays_in_numbers(delay, timeout);
}

/// A finished measurement gives the state of its delay under the given timeout, however long that
/// is, and a failed one gives an error.
pub proof fn measurement_answers(delay: Option<u32>, timeout: u32, state: TrayDelayState)
    requires
        call_ensures(TrayProxyLatencyController::state_from_measurement, (delay, timeout), state),
    ensures
        match delay {
            Some(delay) => {
                &&& 0 < delay < timeout && delay <= 100_000 ==> state == TrayDelayState::Value(delay)
                &&& delay == 0 || timeout <= delay <= 100_000 ==> state == TrayDelayState::Timeout
                &&& delay > 100_000 ==> state == TrayDelayState::Error
            },
            None => state == TrayDelayState::Error,
        },
{
    if let Some(delay) = delay {
        latency::outcomes_in_numbers(delay, timeout);
    }
}

/// Colour classes change at 250, 400 and 10000 milliseconds.
pub proof fn color_answers(delay: u32, color: TrayDelayColor)
    requires
        call_ensures(TrayDelayFormatter::delay_color, (delay,), color),
    ensures
        color == TrayDelayColor::Success <==> delay < 250,
        color == TrayDelayColor::Primary <==> 250 <= delay < 400,
        color == TrayDelayColor::Warning <==> 400 <= delay < 10_000,
        color == TrayDelayColor::Error <==> delay >= 10_000,
{
    delay::value_colors_in_numbers(delay);
}

/// What is shown for a state: the user's own word, a dash, or the number with its unit, each in its
/// colour class.
pub proof fn display_answers(state: TrayDelayState, labels: &TrayLabels, display: TrayDelayDisplay)
    requires
        call_ensures(TrayDelayFormatter::display, (state, labels), display),
    ensures
        match state {
            TrayDelayState::Unknown => display.text@ == "-"@ && display.color
                == TrayDelayColor::Default,
            TrayDelayState::Testing => display.text@ == labels.testing@ && display.color
                == TrayDelayColor::Primary,
            TrayDelayState::Timeout => display.text@ == labels.timeout@ && display.color
                == TrayDelayColor::Error,
            TrayDelayState::Error => display.text@ == labels.error@ && display.color
                == TrayDelayColor::Error,
            TrayDelayState::Value(delay) => {
                let digits = display.text@.take(display.text@.len() - 2);
                &&& display.text@.len() > 2
                &&& display.text@.skip(display.text@.len() - 2) == "ms"@
                &&& crate::decimal::parsed(digits) == Some(delay)
                &&& digits[0] == '0' ==> delay == 0 && digits.len() == 1
                &&& display.color == TrayDelayColor::Success <==> delay < 250
                &&& display.color == TrayDelayColor::Primary <==> 250 <= delay < 400
                &&& display.color == TrayDelayColor::Warning <==> 400 <= delay < 10_000
                &&& display.color == TrayDelayColor::Error <==> delay >= 10_000
            },
        },
{
    delay::texts_of_states_without_value(*labels);
    delay::colors_of_open_and_failed_states(state);
    if let TrayDelayState::Value(delay) = state {
        delay::value_texts_are_numbers_with_unit(delay, labels@);
        delay::value_colors_in_numbers(delay);
    }
}

/// A node title is the name, a tab and the shown delay. The delay starts behind the tab and ends
/// with the title, in UTF-16 units.
pub proof fn title_answers(
    name: &str,
    display: &TrayDelayDisplay,
    parts: TrayProxyTitleParts,
    title: &str,
    units: usize,
)
    requires
        call_ensures(TrayDelayFormatter::node_title, (name, display), parts),
        call_ensures(TrayDelayFormatter::utf16_len, (title,), units),
        title@ == parts.title@,
    ensures
        parts.title@ == name@ + "\t"@ + display.text@,
        parts.delay_start == text::utf16_length(name@) + 1,
        parts.delay_start + parts.delay_len == units,
{
    delay::titles_are_name_tab_delay(name@, display.text@);
    delay::delay_range_ends_title(name@, display.text@);
}

/// A title with a tab is drawn with what its last part stands for: the name, a tab and the shown
/// form of that state. The shown form has a range of its own, from behind the tab to the end of the
/// title and in its own colour, exactly where it does not have the default colour. A title without a
/// tab is left alone.
pub proof fn styling_answers(
    title: &str,
    labels: &TrayLabels,
    item: Option<TrayStyledTitle>,
    name: &str,
    delay_text: &str,
    state: TrayDelayState,
    display: TrayDelayDisplay,
    parts: TrayProxyTitleParts,
)
    requires
        call_ensures(TrayProxyMenuStyler::style_item, (title, labels), item),
        call_ensures(TrayProxyMenuStyler::state_from_delay_text, (delay_text, labels), state),
        call_ensures(TrayDelayFormatter::display, (state, labels), display),
        call_ensures(TrayDelayFormatter::node_title, (name, &display), parts),
        !delay_text@.contains('\t'),
    ensures
        title@ == name@ + seq!['\t'] + delay_text@ ==> {
            &&& item is Some
            &&& item->0.title@ == parts.title@
            &&& item->0.full_len == parts.delay_start + parts.delay_len
            &&& item->0.colored is None <==> display.color == TrayDelayColor::Default
            &&& item->0.colored is Some ==> {
                &&& item->0.colored->0.start == parts.delay_start
                &&& item->0.colored->0.len == parts.delay_len
                &&& item->0.colored->0.color == display.color
            }
        },
        title@ == delay_text@ ==> item is None,
{
    style::titles_with_a_tab_are_styled(name@, delay_text@, labels@);
    delay::colors_of_open_and_failed_states(state);
    let shown = delay::state_text(state, labels@);
    assert(delay::title_text(name@, shown) =~= name@ + seq!['\t'] + shown);
    if let Some(item) = item {
        style::styled_view_keeps_its_parts(item);
    }
}

/// The shown form of a measured delay and that of an unknown one stand for themselves, whatever the
/// words are. So does each word where no earlier reading applies.
pub proof fn shown_text_answers(
    state: TrayDelayState,
    labels: &TrayLabels,
    display: TrayDelayDisplay,
    delay_text: &str,
    read: TrayDelayState,
)
    requires
        call_ensures(TrayDelayFormatter::display, (state, labels), display),
        call_ensures(TrayProxyMenuStyler::state_from_delay_text, (delay_text, labels), read),
        delay_text@ == display.text@,
    ensures
        state is Value || state is Unknown ==> read == state,
        state is Testing && !(read is Value) && !(read is Unknown) ==> read == state,
        state is Timeout && !(read is Value) && !(read is Unknown) && labels.timeout@
            != labels.testing@ ==> read == state,
        state is Error && !(read is Value) && !(read is Unknown) && labels.error@
            != labels.testing@ && labels.error@ != labels.timeout@ ==> read == state,
{
    style::shown_text_reads_back(state, labels@);
    delay::texts_of_states_without_value(*labels);
    if !(read is Value) {
        style::words_are_states(delay_text@, *labels);
    }
}

// ---------------------------------------------------------------------------------------------
// Settings
// ---------------------------------------------------------------------------------------------
/// A positive timeout setting is in force as it is, any other gives ten seconds.
pub proof fn timeout_answers(setting: Option<i16>, timeout: u32)
    requires
        call_ensures(config::resolve_latency_timeout_from_config, (setting,), timeout),
    ensures
        setting is None ==> timeout == 10_000,
        setting matches Some(set) && set > 0 ==> timeout == setting->0,
        setting matches Some(set) && set <= 0 ==> timeout == 10_000,
{
    config::timeouts_in_numbers(setting);
}

/// A page setting is in force without the white space around it. A missing or blank one gives the
/// default page.
pub proof fn page_answers(
    setting: Option<&str>,
    before: Seq<char>,
    page: Seq<char>,
    after: Seq<char>,
    url: String,
)
    requires
        call_ensures(config::resolve_latency_test_url, (setting,), url),
        forall|i: int| 0 <= i < before.len() ==> config::white_space(#[trigger] before[i]),
        forall|i: int| 0 <= i < after.len() ==> config::white_space(#[trigger] after[i]),
        page.len() > 0 ==> !config::white_space(page[0]) && !config::white_space(page.last()),
        setting matches Some(setting) ==> setting@ == before + page + after,
    ensures
        setting is Some && page.len() > 0 ==> url@ == page,
        setting is None || page.len() == 0 ==> url@ == "http://cp.cloudflare.com/generate_204"@,
{
    if let Some(set) = setting {
        config::default_page_and_settings(set);
        if page.len() > 0 {
            config::padded_setting_gives_its_page(before, page, after);
        } else {
            assert forall|i: int| 0 <= i < set@.len() implies config::white_space(
                #[trigger] set@[i],
            ) by {
                if i < before.len() {
                    assert(set@[i] == before[i]);
                } else {
                    assert(set@[i] == after[i - before.len()]);
                }
            }
            config::blank_setting_gives_default(set@);
        }
    }
}

// ---------------------------------------------------------------------------------------------
// Known states
// ---------------------------------------------------------------------------------------------
/// A cached state is shown first. Without one it is the last measurement of the node's history that
/// counts, under the given timeout, and without any the state is unknown.
pub proof fn state_answers(
    controller: &TrayProxyLatencyController,
    group: &str,
    name: &str,
    data: Option<&Proxy>,
    timeout: u32,
    state: TrayDelayState,
)
    requires
        call_ensures(
            TrayProxyLatencyController::state_for_proxy,
            (controller, group, name, data, timeout),
            state,
        ),
    ensures
        ({
            let key = group@ + "::"@ + name@;
            let cached = controller@.cache.contains_key(key);
            &&& cached ==> state == controller@.cache[key]
            &&& !cached && (data is None || data->0.history@.len() == 0) ==> state
                == TrayDelayState::Unknown
            &&& !cached && data is Some && data->0.history@.len() > 0 ==> {
                let delay = data->0.history@[data->0.history@.len() - 1].delay;
                &&& 0 < delay < timeout && delay <= 100_000 ==> state == TrayDelayState::Value(delay)
                &&& delay == 0 || timeout <= delay <= 100_000 ==> state == TrayDelayState::Timeout
                &&& delay > 100_000 ==> state == TrayDelayState::Error
            }
        }),
{
    latency::keys_spell_group_and_node(group@, name@, group@, name@);
    if let Some(data) = data {
        if data.history@.len() > 0 {
            delay::measured_delays_in_numbers(data.history@.last().delay, timeout);
        }
    }
}

/// A recorded state is answered from then on, whatever the history and the timeout. Recording it
/// leaves the groups under test as they are.
pub proof fn recorded_state_answers(
    group: &str,
    name: &str,
    state: TrayDelayState,
    data: Option<&Proxy>,
    timeout: u32,
    answer: TrayDelayState,
)
    ensures
        forall|controller: &mut TrayProxyLatencyController|
            (#[trigger] call_ensures(
                TrayProxyLatencyController::set_state,
                (controller, group, name, state),
                (),
            )) ==> {
                &&& (*final(controller))@.testing_groups == (*controller)@.testing_groups
                &&& call_ensures(
                    TrayProxyLatencyController::state_for_proxy,
                    (&*final(controller), group, name, data, timeout),
                    answer,
                ) ==> answer == state
            },
{
}

/// A group can be put under test once, and again after its test has ended. Other groups and all
/// known states are untouched by either.
pub proof fn group_test_answers(group: &str, started: bool, other: Seq<char>)
    ensures
        forall|controller: &mut TrayProxyLatencyController|
            (#[trigger] call_ensures(
                TrayProxyLatencyController::begin_group_test,
                (controller, group),
                started,
            )) ==> {
                let (before, after) = ((*controller)@, (*final(controller))@);
                &&& started <==> !before.testing_groups.contains(group@)
                &&& after.testing_groups.contains(group@)
                &&& other != group@ ==> after.testing_groups.contains(other)
                    == before.testing_groups.contains(other)
                &&& after.cache == before.cache
            },
        forall|controller: &mut TrayProxyLatencyController|
            (#[trigger] call_ensures(
                TrayProxyLatencyController::end_group_test,
                (controller, group),
                (),
            )) ==> {
                let (before, after) = ((*controller)@, (*final(controller))@);
                &&& !after.testing_groups.contains(group@)
                &&& other != group@ ==> after.testing_groups.contains(other)
                    == before.testing_groups.contains(other)
                &&& after.cache == before.cache
            },
{
}

/// Marking puts each of the given nodes under test, and nothing else.
pub proof fn marking_answers(group: &str, names: &[String], key: Seq<char>)
    ensures
        forall|controller: &mut TrayProxyLatencyController|
            (#[trigger] call_ensures(
                TrayProxyLatencyController::mark_group_testing,
                (controller, group, names),
                (),
            )) ==> {
                let (before, after) = ((*controller)@, (*final(controller))@);
                let marks = exists|i: int|
                    0 <= i < names@.len() && key == group@ + "::"@ + (#[trigger] names@[i])@;
                &&& after.testing_groups == before.testing_groups
                &&& marks ==> after.cache.contains_key(key) && after.cache[key]
                    == TrayDelayState::Testing
                &&& !marks ==> after.cache.contains_key(key) == before.cache.contains_key(key)
                &&& !marks ==> after.cache[key] == before.cache[key]
            },
{
    assert forall|controller: &mut TrayProxyLatencyController|
        (#[trigger] call_ensures(
            TrayProxyLatencyController::mark_group_testing,
            (controller, group, names),
            (),
        )) implies {
        let (before, after) = ((*controller)@, (*final(controller))@);
        let marks = exists|i: int|
            0 <= i < names@.len() && key == group@ + "::"@ + (#[trigger] names@[i])@;
        &&& after.testing_groups == before.testing_groups
        &&& marks ==> after.cache.contains_key(key) && after.cache[key] == TrayDelayState::Testing
        &&& !marks ==> after.cache.contains_key(key) == before.cache.contains_key(key)
        &&& !marks ==> after.cache[key] == before.cache[key]
    } by {
        let all = text::texts(names@);
        let before = (*controller)@;
        if exists|i: int| 0 <= i < names@.len() && key == group@ + "::"@ + (#[trigger] names@[i])@ {
            let i = choose|i: int|
                0 <= i < names@.len() && key == group@ + "::"@ + (#[trigger] names@[i])@;
            latency::marking_touches_the_given_nodes(before.cache, group@, all, i, key);
        } else {
            assert forall|j: int| 0 <= j < all.len() implies key != group@ + "::"@
                + #[trigger] all[j] by {
                assert(all[j] == names@[j]@);
            }
            latency::marking_touches_the_given_nodes(before.cache, group@, all, -1, key);
        }
    }
}

/// A snapshot tells for each given node its cached state, and leaves out those without one.
pub proof fn snapshot_answers(
    controller: &TrayProxyLatencyController,
    group: &str,
    names: &[String],
    states: StringHashMap<TrayDelayState>,
    name: Seq<char>,
)
    requires
        call_ensures(
            TrayProxyLatencyController::group_state_snapshot,
            (controller, group, names),
            states,
        ),
    ensures
        states@.contains_key(name) <==> (exists|i: int|
            0 <= i < names@.len() && (#[trigger] names@[i])@ == name)
            && controller@.cache.contains_key(group@ + "::"@ + name),
        states@.contains_key(name) ==> states@[name] == controller@.cache[group@ + "::"@ + name],
{
    let all = text::texts(names@);
    latency::snapshots_hold_the_cached_states(controller@.cache, group@, all, name);
    if exists|i: int| 0 <= i < all.len() && #[trigger] all[i] == name {
        let i = choose|i: int| 0 <= i < all.len() && #[trigger] all[i] == name;
        assert(names@[i]@ == name);
    }
    if exists|i: int| 0 <= i < names@.len() && (#[trigger] names@[i])@ == name {
        let i = choose|i: int| 0 <= i < names@.len() && (#[trigger] names@[i])@ == name;
        assert(all[i] == name);
    }
}

/// A test works on all members that the group lists, in their order, and on none where there is no
/// such group or it has no list. Its timeout is a positive setting or ten seconds, and its page is
/// the one in force for the setting.
pub proof fn test_input_answers(
    group: &str,
    proxies: &Proxies,
    page: Option<&str>,
    timeout: Option<i16>,
    input: GroupTestInput,
    url: String,
)
    requires
        call_ensures(config::resolve_latency_test_url, (page,), url),
        call_ensures(
            TrayProxyLatencyController::collect_group_test_input,
            (group, proxies, page, timeout),
            input,
        ),
    ensures
        proxies@.contains_key(group@) && proxies@[group@].all is Some ==> {
            let all = proxies@[group@].all->0@;
            &&& input.names@.len() == all.len()
            &&& forall|i: int| 0 <= i < all.len() ==> (#[trigger] input.names@[i])@ == all[i]@
        },
        !proxies@.contains_key(group@) || proxies@[group@].all is None ==> input.names@.len() == 0,
        timeout matches Some(set) && set > 0 ==> input.timeout == timeout->0,
        timeout matches Some(set) && set <= 0 ==> input.timeout == 10_000,
        timeout is None ==> input.timeout == 10_000,
        input.test_url@ == url@,
{
    let url = config::trimmed_setting(config::optional_chars(page));
    latency::tests_measure_the_listed_members(group@, proxies@, url, timeout);
    latency::input_view_keeps_its_parts(input);
    if proxies@.contains_key(group@) && proxies@[group@].all is Some {
        let all = proxies@[group@].all->0@;
        assert forall|i: int| 0 <= i < all.len() implies (#[trigger] input.names@[i])@ == all[i]@ by {
            assert(input@.names[i] == input.names@[i]@);
        }
    }
}

// ---------------------------------------------------------------------------------------------
// Delay tests
// ---------------------------------------------------------------------------------------------
/// A new test of a group waits for its request. A request takes the group, and is skipped where the
/// group is under test.
pub proof fn request_answers(group: &str, made: GroupDelayTest, action: GroupTestAction)
    requires
        call_ensures(GroupDelayTest::new, (group,), made),
    ensures
        made@.group == group@,
        made@.phase is Idle,
        forall|test: &mut GroupDelayTest, controller: &mut TrayProxyLatencyController|
            (#[trigger] call_ensures(
                GroupDelayTest::step,
                (test, controller, GroupTestEvent::Requested),
                action,
            )) && *test == made ==> {
                let (before, after) = ((*controller)@, (*final(controller))@);
                &&& after.cache == before.cache
                &&& after.testing_groups.contains(group@)
                &&& before.testing_groups.contains(group@) ==> action is Skip && after == before
                    && (*final(test))@.phase is Done
                &&& !before.testing_groups.contains(group@) ==> action is CollectInput
                    && (*final(test))@.phase is Collecting
                &&& (*final(test))@.group == group@
            },
{
    assert forall|test: &mut GroupDelayTest, controller: &mut TrayProxyLatencyController|
        (#[trigger] call_ensures(
            GroupDelayTest::step,
            (test, controller, GroupTestEvent::Requested),
            action,
        )) && *test == made implies {
        let (before, after) = ((*controller)@, (*final(controller))@);
        &&& after.cache == before.cache
        &&& after.testing_groups.contains(group@)
        &&& before.testing_groups.contains(group@) ==> action is Skip && after == before && (*final(test))@.phase is Done
        &&& !before.testing_groups.contains(group@) ==> action is CollectInput && (*final(test))@.phase is Collecting
        &&& (*final(test))@.group == group@
    } by {
        let before = (*controller)@;
        assert(GroupTestEvent::Requested@ == TestEvent::Requested);
        if before.testing_groups.contains(group@) {
            group_test::repeated_request_is_skipped(made@, before);
        } else {
            group_test::request_takes_the_group(made@, before, group@);
        }
    }
}

/// A finished measurement of a running test is recorded for its node by the timeout of the test, and
/// asks for a redraw. The test goes on and all other entries stay.
pub proof fn measured_event_answers(
    name: String,
    delay: Option<u32>,
    names: Seq<Seq<char>>,
    timeout: u32,
    action: GroupTestAction,
    other: Seq<char>,
)
    ensures
        forall|test: &mut GroupDelayTest, controller: &mut TrayProxyLatencyController|
            (#[trigger] call_ensures(
                GroupDelayTest::step,
                (test, controller, GroupTestEvent::Measured { name, delay }),
                action,
            )) && (*test)@.phase == (TestPhase::Measuring { names, timeout }) ==> {
                let (before, after) = ((*controller)@, (*final(controller))@);
                let key = (*test)@.group + "::"@ + name@;
                &&& action is Refresh
                &&& (*final(test))@ == (*test)@
                &&& after.testing_groups == before.testing_groups
                &&& after.cache.contains_key(key)
                &&& match delay {
                    Some(delay) => {
                        &&& 0 < delay < timeout && delay <= 100_000 ==> after.cache[key]
                            == TrayDelayState::Value(delay)
                        &&& delay == 0 || timeout <= delay <= 100_000 ==> after.cache[key]
                            == TrayDelayState::Timeout
                        &&& delay > 100_000 ==> after.cache[key] == TrayDelayState::Error
                    },
                    None => after.cache[key] == TrayDelayState::Error,
                }
                &&& other != key ==> after.cache.contains_key(other) == before.cache.contains_key(
                    other,
                ) && after.cache[other] == before.cache[other]
            },
{
    assert forall|test: &mut GroupDelayTest, controller: &mut TrayProxyLatencyController|
        (#[trigger] call_ensures(
            GroupDelayTest::step,
            (test, controller, GroupTestEvent::Measured { name, delay }),
            action,
        )) && (*test)@.phase == (TestPhase::Measuring { names, timeout }) implies {
        let (before, after) = ((*controller)@, (*final(controller))@);
        let key = (*test)@.group + "::"@ + name@;
        &&& action is Refresh
        &&& (*final(test))@ == (*test)@
        &&& after.testing_groups == before.testing_groups
        &&& after.cache.contains_key(key)
        &&& match delay {
            Some(delay) => {
                &&& 0 < delay < timeout && delay <= 100_000 ==> after.cache[key]
                    == TrayDelayState::Value(delay)
                &&& delay == 0 || timeout <= delay <= 100_000 ==> after.cache[key]
                    == TrayDelayState::Timeout
                &&& delay > 100_000 ==> after.cache[key] == TrayDelayState::Error
            },
            None => after.cache[key] == TrayDelayState::Error,
        }
        &&& other != key ==> after.cache.contains_key(other) == before.cache.contains_key(other)
            && after.cache[other] == before.cache[other]
    } by {
        let event = GroupTestEvent::Measured { name, delay };
        assert(event@ == (TestEvent::Measured { name: name@, delay }));
        group_test::measurements_are_recorded_in_numbers(
            (*test)@.group,
            names,
            timeout,
            (*controller)@,
            name@,
            delay,
            other,
        );
    }
}

/// The other events of a test that waits for its input or measures: an input with nodes is measured,
/// one without ends the test, as a failure does, and so does the end of the measurements. Whatever
/// ends a test frees its group, and none of these touches a cached state but to put the nodes of the
/// input under test.
pub proof fn course_answers(input: GroupTestInput, action: GroupTestAction, key: Seq<char>)
    ensures
        forall|test: &mut GroupDelayTest, controller: &mut TrayProxyLatencyController|
            (#[trigger] call_ensures(
                GroupDelayTest::step,
                (test, controller, GroupTestEvent::InputReady(input)),
                action,
            )) && (*test)@.phase is Collecting ==> {
                let (before, after) = ((*controller)@, (*final(controller))@);
                let group = (*test)@.group;
                let marks = exists|i: int|
                    0 <= i < input@.names.len() && key == group + "::"@ + #[trigger] input@.names[i];
                &&& (*final(test))@.group == group
                &&& input.names@.len() == 0 ==> {
                    &&& action is NothingToTest
                    &&& (*final(test))@.phase is Done
                    &&& after.testing_groups == before.testing_groups.remove(group)
                    &&& after.cache == before.cache
                }
                &&& input.names@.len() > 0 ==> {
                    &&& action@ == group_test::TestAction::Measure(input@)
                    &&& (*final(test))@.phase == (TestPhase::Measuring {
                        names: input@.names,
                        timeout: input.timeout,
                    })
                    &&& after.testing_groups == before.testing_groups
                    &&& marks ==> after.cache.contains_key(key) && after.cache[key]
                        == TrayDelayState::Testing
                    &&& !marks ==> after.cache.contains_key(key) == before.cache.contains_key(key)
                        && after.cache[key] == before.cache[key]
                }
            },
        forall|test: &mut GroupDelayTest, controller: &mut TrayProxyLatencyController|
            (#[trigger] call_ensures(
                GroupDelayTest::step,
                (test, controller, GroupTestEvent::InputFailed),
                action,
            )) && (*test)@.phase is Collecting ==> {
                let (before, after) = ((*controller)@, (*final(controller))@);
                &&& action is Fail
                &&& (*final(test))@.phase is Done
                &&& after.testing_groups == before.testing_groups.remove((*test)@.group)
                &&& after.cache == before.cache
            },
        forall|test: &mut GroupDelayTest, controller: &mut TrayProxyLatencyController|
            (#[trigger] call_ensures(
                GroupDelayTest::step,
                (test, controller, GroupTestEvent::Drained),
                action,
            )) && (*test)@.phase is Measuring ==> {
                let (before, after) = ((*controller)@, (*final(controller))@);
                &&& action is Finish
                &&& (*final(test))@.phase is Done
                &&& after.testing_groups == before.testing_groups.remove((*test)@.group)
                &&& after.cache == before.cache
            },
{
    assert forall|test: &mut GroupDelayTest, controller: &mut TrayProxyLatencyController|
        (#[trigger] call_ensures(
            GroupDelayTest::step,
            (test, controller, GroupTestEvent::InputReady(input)),
            action,
        )) && (*test)@.phase is Collecting implies {
        let (before, after) = ((*controller)@, (*final(controller))@);
        let group = (*test)@.group;
        let marks = exists|i: int|
            0 <= i < input@.names.len() && key == group + "::"@ + #[trigger] input@.names[i];
        &&& (*final(test))@.group == group
        &&& input.names@.len() == 0 ==> {
            &&& action is NothingToTest
            &&& (*final(test))@.phase is Done
            &&& after.testing_groups == before.testing_groups.remove(group)
            &&& after.cache == before.cache
        }
        &&& input.names@.len() > 0 ==> {
            &&& action@ == group_test::TestAction::Measure(input@)
            &&& (*final(test))@.phase == (TestPhase::Measuring {
                names: input@.names,
                timeout: input.timeout,
            })
            &&& after.testing_groups == before.testing_groups
            &&& marks ==> after.cache.contains_key(key) && after.cache[key]
                == TrayDelayState::Testing
            &&& !marks ==> after.cache.contains_key(key) == before.cache.contains_key(key)
                && after.cache[key] == before.cache[key]
        }
    } by {
        latency::input_view_keeps_its_parts(input);
        let event = GroupTestEvent::InputReady(input);
        assert(event@ == TestEvent::InputReady(input@));
        group_test::input_is_measured_or_the_test_ends((*test)@, (*controller)@, input@, key);
    }
    assert forall|test: &mut GroupDelayTest, controller: &mut TrayProxyLatencyController|
        (#[trigger] call_ensures(
            GroupDelayTest::step,
            (test, controller, GroupTestEvent::Drained),
            action,
        )) && (*test)@.phase is Measuring implies {
        let (before, after) = ((*controller)@, (*final(controller))@);
        &&& action is Finish
        &&& (*final(test))@.phase is Done
        &&& after.testing_groups == before.testing_groups.remove((*test)@.group)
        &&& after.cache == before.cache
    } by {
        assert(GroupTestEvent::Drained@ == TestEvent::Drained);
        group_test::drained_test_ends((*test)@, (*controller)@);
    }
}

/// An event that does not belong to the phase of a test changes nothing and asks for nothing.
pub proof fn stray_event_answers(event: GroupTestEvent, action: GroupTestAction)
    ensures
        forall|test: &mut GroupDelayTest, controller: &mut TrayProxyLatencyController|
            (#[trigger] call_ensures(GroupDelayTest::step, (test, controller, event), action)) && (
            event is Requested ==> !((*test)@.phase is Idle)) && (event is InputReady
                || event is InputFailed ==> !((*test)@.phase is Collecting)) && (event is Measured
                || event is Drained ==> !((*test)@.phase is Measuring)) ==> {
                &&& action is Ignore
                &&& (*final(test))@ == (*test)@
                &&& (*final(controller))@ == (*controller)@
            },
{
    assert forall|test: &mut GroupDelayTest, controller: &mut TrayProxyLatencyController|
        (#[trigger] call_ensures(GroupDelayTest::step, (test, controller, event), action)) && (
        event is Requested ==> !((*test)@.phase is Idle)) && (event is InputReady
            || event is InputFailed ==> !((*test)@.phase is Collecting)) && (event is Measured
            || event is Drained ==> !((*test)@.phase is Measuring)) implies {
        &&& action is Ignore
        &&& (*final(test))@ == (*test)@
        &&& (*final(controller))@ == (*controller)@
    } by {
        group_test::stray_events_change_nothing((*test)@, (*controller)@, event@);
    }
}

/// What to redraw during the measurements: of each node under test its cached state. Nothing at any
/// other time.
pub proof fn redraw_answers(
    test: &GroupDelayTest,
    controller: &TrayProxyLatencyController,
    states: StringHashMap<TrayDelayState>,
    name: Seq<char>,
)
    requires
        call_ensures(GroupDelayTest::snapshot, (test, controller), states),
    ensures
        test@.phase matches TestPhase::Measuring { names, timeout } ==> {
            let key = test@.group + "::"@ + name;
            &&& states@.contains_key(name) <==> (exists|i: int|
                0 <= i < names.len() && #[trigger] names[i] == name) && controller@.cache.contains_key(
                key,
            )
            &&& states@.contains_key(name) ==> states@[name] == controller@.cache[key]
        },
        !(test@.phase is Measuring) ==> !states@.contains_key(name),
{
    if let TestPhase::Measuring { names, timeout } = test@.phase {
        latency::snapshots_hold_the_cached_states(controller@.cache, test@.group, names, name);
    }
}

// ---------------------------------------------------------------------------------------------
// Speed
// ---------------------------------------------------------------------------------------------
/// A connection counts as proxied exactly where its chain has a first entry that spells none of the
/// words for direct, rejected and dropped traffic.
pub proof fn proxied_answers(connection: &Connection, proxied: bool)
    requires
        call_ensures(ProxyConnectionSpeedSampler::is_proxy_connection, (connection,), proxied),
    ensures
        proxied <==> {
            &&& connection.chains@.len() > 0
            &&& !speed::spells(connection.chains@[0]@, "DIRECT"@)
            &&& !speed::spells(connection.chains@[0]@, "REJECT"@)
            &&& !speed::spells(connection.chains@[0]@, "REJECT-DROP"@)
        },
{
    speed::proxied_connections_by_their_exit(*connection);
}

/// A sample of one proxied connection that is known with lower counters gives what was sent as
/// upload and what was received as download, whatever its chain is behind the exit. From then on the
/// connection is known with its new counters.
pub proof fn sample_answers(
    connections: &[Connection],
    connection: Connection,
    speed: Option<ProxyConnectionSpeed>,
)
    requires
        connections@ == seq![connection],
        connection.chains@.len() > 0,
        !speed::spells(connection.chains@[0]@, "DIRECT"@),
        !speed::spells(connection.chains@[0]@, "REJECT"@),
        !speed::spells(connection.chains@[0]@, "REJECT-DROP"@),
    ensures
        forall|sampler: &mut ProxyConnectionSpeedSampler|
            (#[trigger] call_ensures(
                ProxyConnectionSpeedSampler::checked_sample,
                (sampler, connections),
                speed,
            )) ==> {
                let known = (*sampler)@;
                let before = known[connection.id@];
                let after = (*final(sampler))@[connection.id@];
                &&& speed is Some
                &&& !known.contains_key(connection.id@) ==> speed->0.up == 0 && speed->0.down == 0
                &&& known.contains_key(connection.id@) && before.upload <= connection.upload
                    ==> speed->0.up == connection.upload - before.upload
                &&& known.contains_key(connection.id@) && before.upload > connection.upload
                    ==> speed->0.up == 0
                &&& known.contains_key(connection.id@) && before.download <= connection.download
                    ==> speed->0.down == connection.download - before.download
                &&& known.contains_key(connection.id@) && before.download > connection.download
                    ==> speed->0.down == 0
                &&& (*final(sampler))@.contains_key(connection.id@)
                &&& after.upload == connection.upload
                &&& after.download == connection.download
            },
{
    assert forall|sampler: &mut ProxyConnectionSpeedSampler|
        (#[trigger] call_ensures(
            ProxyConnectionSpeedSampler::checked_sample,
            (sampler, connections),
            speed,
        )) implies {
        let known = (*sampler)@;
        let before = known[connection.id@];
        let after = (*final(sampler))@[connection.id@];
        &&& speed is Some
        &&& !known.contains_key(connection.id@) ==> speed->0.up == 0 && speed->0.down == 0
        &&& known.contains_key(connection.id@) && before.upload <= connection.upload
            ==> speed->0.up == connection.upload - before.upload
        &&& known.contains_key(connection.id@) && before.upload > connection.upload
            ==> speed->0.up == 0
        &&& known.contains_key(connection.id@) && before.download <= connection.download
            ==> speed->0.down == connection.download - before.download
        &&& known.contains_key(connection.id@) && before.download > connection.download
            ==> speed->0.down == 0
        &&& (*final(sampler))@.contains_key(connection.id@)
        &&& after.upload == connection.upload
        &&& after.download == connection.download
    } by {
        speed::one_connection_in_numbers((*sampler)@, connection);
        speed::known_counters_in_numbers(seq![connection], connection.id@, 0);
    }
}

/// A sample of any connections gives the totals over all of them, exactly where both fit into
/// sixty-four bits. From then on exactly these connections are known, each by its last counters.
pub proof fn sample_totals(
    connections: &[Connection],
    speed: Option<ProxyConnectionSpeed>,
    id: Seq<char>,
    at: int,
)
    requires
        -1 <= at < connections@.len(),
        at >= 0 ==> connections@[at].id@ == id,
        forall|i: int| at < i < connections@.len() ==> (#[trigger] connections@[i]).id@ != id,
    ensures
        forall|sampler: &mut ProxyConnectionSpeedSampler|
            (#[trigger] call_ensures(
                ProxyConnectionSpeedSampler::checked_sample,
                (sampler, connections),
                speed,
            )) ==> {
                let sent = speed::total_sent((*sampler)@, connections@);
                let received = speed::total_received((*sampler)@, connections@);
                let known = (*final(sampler))@;
                &&& speed is Some <==> sent <= 0xFFFF_FFFF_FFFF_FFFF && received
                    <= 0xFFFF_FFFF_FFFF_FFFF
                &&& speed is Some ==> speed->0.up == sent && speed->0.down == received
                &&& known.contains_key(id) <==> at >= 0
                &&& at >= 0 ==> known[id].upload == connections@[at].upload && known[id].download
                    == connections@[at].download
            },
{
    speed::known_counters_in_numbers(connections@, id, at);
    assert forall|sampler: &mut ProxyConnectionSpeedSampler|
        (#[trigger] call_ensures(
            ProxyConnectionSpeedSampler::checked_sample,
            (sampler, connections),
            speed,
        )) implies (speed is Some <==> speed::total_sent((*sampler)@, connections@)
        <= 0xFFFF_FFFF_FFFF_FFFF && speed::total_received((*sampler)@, connections@)
        <= 0xFFFF_FFFF_FFFF_FFFF) by {
        speed::fitting_totals_in_numbers((*sampler)@, connections@);
    }
}

/// A reading of connections gives the speed that a sample of them gives, from the same known
/// counters, and leaves the same ones known.
pub proof fn readings_are_samples(
    connections: &[Connection],
    list: Vec<Connection>,
    speed: Option<ProxyConnectionSpeed>,
    read: Option<ProxyConnectionSpeed>,
)
    requires
        list@ == connections@,
    ensures
        forall|sampler: &mut ProxyConnectionSpeedSampler, rounds: &mut TraySpeedLoop|
            (#[trigger] call_ensures(
                ProxyConnectionSpeedSampler::checked_sample,
                (sampler, connections),
                speed,
            )) && (#[trigger] call_ensures(
                TraySpeedLoop::read,
                (rounds, TraySpeedReading::Connections(Some(list))),
                read,
            )) && (*sampler)@ == (*rounds)@ ==> {
                &&& read == speed
                &&& (*final(rounds))@ == (*final(sampler))@
            },
{
}

/// A sample and a checked sample of the same connections tell the same speed.
pub proof fn samples_agree(
    connections: &[Connection],
    speed: ProxyConnectionSpeed,
    checked: Option<ProxyConnectionSpeed>,
)
    ensures
        forall|sampler: &mut ProxyConnectionSpeedSampler, other: &mut ProxyConnectionSpeedSampler|
            (#[trigger] call_ensures(
                ProxyConnectionSpeedSampler::sample,
                (sampler, connections),
                speed,
            )) && (#[trigger] call_ensures(
                ProxyConnectionSpeedSampler::checked_sample,
                (other, connections),
                checked,
            )) && (*sampler)@ == (*other)@ && checked is Some ==> {
                &&& speed == checked->0
                &&& (*final(sampler))@ == (*final(other))@
            },
{
}

/// A round ends the task while the application exits, reports a missing tray, and asks the core
/// otherwise.
pub proof fn round_answers(is_exiting: bool, has_main_tray: bool, round: TraySpeedRound)
    requires
        call_ensures(TraySpeedLoop::begin_round, (is_exiting, has_main_tray), round),
    ensures
        is_exiting ==> round == TraySpeedRound::Exit,
        !is_exiting && !has_main_tray ==> round == TraySpeedRound::TrayGone,
        !is_exiting && has_main_tray ==> round == TraySpeedRound::Fetch,
{
}

/// Without an answer of the core the speed is zero and nothing is forgotten. An answer without
/// connections gives zero and forgets all. An answer with one proxied connection gives what it has
/// sent and received since it was last seen.
pub proof fn reading_answers(
    connection: Connection,
    connections: Vec<Connection>,
    speed: Option<ProxyConnectionSpeed>,
)
    requires
        connections@ == seq![connection],
        connection.chains@.len() > 0,
        !speed::spells(connection.chains@[0]@, "DIRECT"@),
        !speed::spells(connection.chains@[0]@, "REJECT"@),
        !speed::spells(connection.chains@[0]@, "REJECT-DROP"@),
    ensures
        forall|rounds: &mut TraySpeedLoop|
            (#[trigger] call_ensures(
                TraySpeedLoop::read,
                (rounds, TraySpeedReading::Failed),
                speed,
            )) ==> {
                &&& speed is Some
                &&& speed->0.up == 0
                &&& speed->0.down == 0
                &&& (*final(rounds))@ == (*rounds)@
            },
        forall|rounds: &mut TraySpeedLoop|
            (#[trigger] call_ensures(
                TraySpeedLoop::read,
                (rounds, TraySpeedReading::Connections(None)),
                speed,
            )) ==> {
                &&& speed is Some
                &&& speed->0.up == 0
                &&& speed->0.down == 0
                &&& (*final(rounds))@ == Map::<Seq<char>, speed::ConnectionTrafficSnapshot>::empty()
            },
        forall|rounds: &mut TraySpeedLoop|
            (#[trigger] call_ensures(
                TraySpeedLoop::read,
                (rounds, TraySpeedReading::Connections(Some(connections))),
                speed,
            )) && (*rounds)@.contains_key(connection.id@) && (*rounds)@[connection.id@].upload
                <= connection.upload && (*rounds)@[connection.id@].download <= connection.download
                ==> {
                let before = (*rounds)@[connection.id@];
                &&& speed is Some
                &&& speed->0.up == connection.upload - before.upload
                &&& speed->0.down == connection.download - before.download
                &&& (*final(rounds))@.contains_key(connection.id@)
            },
{
    assert forall|rounds: &mut TraySpeedLoop|
        (#[trigger] call_ensures(
            TraySpeedLoop::read,
            (rounds, TraySpeedReading::Connections(Some(connections))),
            speed,
        )) && (*rounds)@.contains_key(connection.id@) && (*rounds)@[connection.id@].upload
            <= connection.upload && (*rounds)@[connection.id@].download <= connection.download implies {
        let before = (*rounds)@[connection.id@];
        &&& speed is Some
        &&& speed->0.up == connection.upload - before.upload
        &&& speed->0.down == connection.download - before.download
        &&& (*final(rounds))@.contains_key(connection.id@)
    } by {
        speed::one_connection_in_numbers((*rounds)@, connection);
        speed::known_counters_in_numbers(seq![connection], connection.id@, 0);
    }
}

/// Switching the speed off hands out the task, if there is one, and forgets it. Switching it on
/// keeps what there is, and asks for a task exactly where the application goes on, there is a tray,
/// and no earlier task still runs.
pub proof fn switch_answers<H>(
    is_on: bool,
    situation: TraySpeedSituation,
    action: TraySpeedAction<H>,
    task: H,
    stopped: Option<H>,
)
    ensures
        forall|controller: &mut TraySpeedController<H>|
            (#[trigger] call_ensures(
                TraySpeedController::<H>::update_task,
                (controller, is_on, situation),
                action,
            )) ==> {
                let (before, after) = ((*controller)@, (*final(controller))@);
                &&& !is_on ==> action == TraySpeedAction::Stop(before) && after is None
                &&& is_on ==> after == before
                &&& is_on && situation.is_exiting ==> action == TraySpeedAction::<H>::Keep
                &&& is_on && !situation.is_exiting && !situation.has_main_tray ==> action
                    == TraySpeedAction::<H>::ReportNoTray
                &&& is_on && !situation.is_exiting && situation.has_main_tray && before is Some
                    && !situation.is_finished ==> action == TraySpeedAction::<H>::Keep
                &&& is_on && !situation.is_exiting && situation.has_main_tray && (before is None
                    || situation.is_finished) ==> action == TraySpeedAction::<H>::Spawn
            },
        forall|controller: &mut TraySpeedController<H>|
            (#[trigger] call_ensures(
                TraySpeedController::<H>::task_started,
                (controller, task),
                (),
            )) ==> (*final(controller))@ == Some(task),
        forall|controller: &mut TraySpeedController<H>|
            (#[trigger] call_ensures(
                TraySpeedController::<H>::stop_task,
                (controller,),
                stopped,
            )) ==> stopped == (*controller)@ && (*final(controller))@ is None,
{
}

// ---------------------------------------------------------------------------------------------
// Identifiers
// ---------------------------------------------------------------------------------------------
/// The identifier of a node entry reads back as the selection of that node in that group, that of a
/// delay test as the test of that group, and that of a submenu as no action.
pub proof fn identifier_answers(
    group: &str,
    name: &str,
    node: String,
    test: String,
    submenu: String,
    id: &str,
    action: Option<TrayProxyMenuAction>,
)
    requires
        call_ensures(TrayProxyMenuId::node, (group, name), node),
        call_ensures(TrayProxyMenuId::delay_test, (group,), test),
        call_ensures(TrayProxyMenuId::group, (group,), submenu),
        call_ensures(TrayProxyMenuId::parse, (id,), action),
    ensures
        submenu@ == "proxy_group_"@ + group@,
        id@ == node@ ==> (action matches Some(TrayProxyMenuAction::SelectNode {
            group: read_group,
            proxy,
        }) && read_group@ == group@ && proxy@ == name@),
        id@ == test@ ==> (action matches Some(TrayProxyMenuAction::TestGroupDelay {
            group: read_group,
        }) && read_group@ == group@),
        id@ == submenu@ ==> action is None,
        node@ != test@ && node@ != submenu@ && test@ != submenu@,
{
    menu_id::node_id_round_trip(group@, name@);
    menu_id::delay_test_id_round_trip(group@);
    menu_id::group_id_has_no_action(group@);
    menu_id::ids_spell_out_their_names(group@, name@);
    if let Some(TrayProxyMenuAction::SelectNode { group, proxy }) = action {
        menu_id::action_view_keeps_names(group, proxy);
    }
    if let Some(TrayProxyMenuAction::TestGroupDelay { group }) = action {
        menu_id::action_view_keeps_names(group, group);
    }
}

// ---------------------------------------------------------------------------------------------
// Collections
// ---------------------------------------------------------------------------------------------
/// A proxy that is added is found under its name, behind all others, or at the place of the one that
/// it replaces. All others stay as they are and where they are.
pub proof fn proxies_answers(name: String, proxy: Proxy, other: Seq<char>, place: int)
    ensures
        forall|proxies: &mut Proxies|
            (#[trigger] call_ensures(Proxies::insert, (proxies, name, proxy), ())) ==> {
                let (before, after) = (*proxies, *final(proxies));
                &&& after@.contains_key(name@)
                &&& after@[name@] == proxy
                &&& other != name@ ==> after@.contains_key(other) == before@.contains_key(other)
                &&& other != name@ ==> after@[other] == before@[other]
                &&& 0 <= place < before.order().len() ==> after.order()[place]
                    == before.order()[place]
                &&& before@.contains_key(name@) ==> after.order().len() == before.order().len()
                &&& !before@.contains_key(name@) ==> after.order().len() == before.order().len() + 1
                    && after.order()[before.order().len() as int] == name@
            },
{
}

/// A group is found at the place that it was given last, and giving it moves no other group.
pub proof fn group_order_answers(
    group: String,
    place: usize,
    name: &str,
    found: Option<usize>,
    found_before: Option<usize>,
)
    ensures
        forall|order: &mut TrayProxyGroupOrder|
            (#[trigger] call_ensures(TrayProxyGroupOrder::insert, (order, group, place), ())) ==> {
                call_ensures(TrayProxyGroupOrder::get, (&*final(order), name), found) ==> {
                    &&& name@ == group@ ==> found == Some(place)
                    &&& name@ != group@ && call_ensures(
                        TrayProxyGroupOrder::get,
                        (&*order, name),
                        found_before,
                    ) ==> found == found_before
                }
            },
{
}

/// What is new holds nothing yet.
pub proof fn new_values_are_empty<H>(
    proxies: Proxies,
    order: TrayProxyGroupOrder,
    latency: TrayProxyLatencyController,
    sampler: ProxyConnectionSpeedSampler,
    rounds: TraySpeedLoop,
    controller: TraySpeedController<H>,
    speed: ProxyConnectionSpeed,
    name: Seq<char>,
)
    requires
        call_ensures(Proxies::new, (), proxies),
        call_ensures(TrayProxyGroupOrder::new, (), order),
        call_ensures(TrayProxyLatencyController::default, (), latency),
        call_ensures(ProxyConnectionSpeedSampler::new, (), sampler),
        call_ensures(TraySpeedLoop::new, (), rounds),
        call_ensures(TraySpeedController::<H>::new, (), controller),
        call_ensures(ProxyConnectionSpeed::default, (), speed),
    ensures
        !proxies@.contains_key(name),
        proxies.order().len() == 0,
        !order@.contains_key(name),
        !latency@.cache.contains_key(name),
        !latency@.testing_groups.contains(name),
        !sampler@.contains_key(name),
        !rounds@.contains_key(name),
        controller@ is None,
        speed.up == 0,
        speed.down == 0,
{
}

// ---------------------------------------------------------------------------------------------
// Menu
// ---------------------------------------------------------------------------------------------
/// A group is shown exactly where it is not hidden, has a list, and is the global group exactly in
/// the global mode. Nothing else about it makes a difference.
pub proof fn visibility_answers(mode: &str, name: &str, data: &Proxy, shown: bool)
    requires
        call_ensures(TrayProxyMenuBuilder::should_show_group, (mode, name, data), shown),
    ensures
        shown <==> {
            &&& mode@ == "global"@ <==> name@ == "GLOBAL"@
            &&& data.hidden is None || data.hidden == Some(false)
            &&& data.all is Some
        },
{
    menu_laws::shown_groups_by_flag_list_and_name(mode@, name@, *data);
}

/// A menu has exactly one submenu for every group that is not hidden, lists members, and is the
/// global group exactly in the global mode, and no others. Where the core reports nothing it is
/// empty.
pub proof fn menu_answers(
    mode: &str,
    order: Option<&TrayProxyGroupOrder>,
    proxies: Option<&Proxies>,
    timeout: u32,
    latency: &TrayProxyLatencyController,
    labels: &TrayLabels,
    submenus: Vec<TrayProxySubmenu>,
    name: Seq<char>,
)
    requires
        proxies matches Some(proxies) ==> proxies.wf(),
        call_ensures(
            TrayProxyMenuBuilder::create_proxy_submenus,
            (mode, order, proxies, timeout, latency, labels),
            submenus,
        ),
    ensures
        proxies is None ==> submenus@.len() == 0,
        proxies matches Some(proxies) ==> {
            &&& (exists|i: int| 0 <= i < submenus@.len() && (#[trigger] submenus@[i]).title@ == name)
                <==> {
                &&& proxies@.contains_key(name)
                &&& proxies@[name].hidden != Some(true)
                &&& proxies@[name].all is Some
                &&& proxies@[name].all->0@.len() > 0
                &&& mode@ == "global"@ <==> name == "GLOBAL"@
            }
            &&& forall|i: int, j: int|
                0 <= i < j < submenus@.len() ==> (#[trigger] submenus@[i]).title@ != (
                #[trigger] submenus@[j]).title@
        },
{
    if let Some(proxies) = proxies {
        let places = choose|places: Seq<int>| #[trigger]
            menu::is_menu_order(
                menu::order_of(order),
                menu::listed_menus(
                    menu::menu_source(proxies, timeout, latency, labels),
                    mode@,
                    proxies.order(),
                ),
                menu::menus(submenus@),
                places,
            );
        menu_laws::menu_shows_exactly_the_belonging_groups(
            mode@,
            order,
            proxies,
            timeout,
            latency,
            labels,
            submenus@,
            places,
        );
        if proxies@.contains_key(name) {
            assert(proxies@[name].all is Some ==> proxies@[name].all == Some(proxies@[name].all->0));
        }
    }
}

/// The order of a menu: a group with a configured place comes before all without one and before those
/// with a higher place. Where places do not decide, and without a configured order, groups follow
/// each other as the core reports them, at `a` and `b`.
pub proof fn menu_order_answers(
    mode: &str,
    order: Option<&TrayProxyGroupOrder>,
    proxies: &Proxies,
    timeout: u32,
    latency: &TrayProxyLatencyController,
    labels: &TrayLabels,
    submenus: Vec<TrayProxySubmenu>,
    i: int,
    j: int,
    a: int,
    b: int,
)
    requires
        proxies.wf(),
        call_ensures(
            TrayProxyMenuBuilder::create_proxy_submenus,
            (mode, order, Some(proxies), timeout, latency, labels),
            submenus,
        ),
        0 <= i < j < submenus@.len(),
        0 <= a < proxies.order().len(),
        0 <= b < proxies.order().len(),
        proxies.order()[a] == submenus@[i].title@,
        proxies.order()[b] == submenus@[j].title@,
    ensures
        order is None ==> a < b,
        order matches Some(order) ==> {
            let (first, second) = (submenus@[i].title@, submenus@[j].title@);
            &&& order@.contains_key(second) ==> order@.contains_key(first) && order@[first]
                <= order@[second]
            &&& order@.contains_key(first) && order@.contains_key(second) && order@[first]
                == order@[second] ==> a < b
            &&& !order@.contains_key(first) && !order@.contains_key(second) ==> a < b
        },
{
    let places = choose|places: Seq<int>| #[trigger]
        menu::is_menu_order(
            menu::order_of(order),
            menu::listed_menus(
                menu::menu_source(proxies, timeout, latency, labels),
                mode@,
                proxies.order(),
            ),
            menu::menus(submenus@),
            places,
        );
    menu_laws::menu_follows_the_configured_places(
        mode@,
        order,
        proxies,
        timeout,
        latency,
        labels,
        submenus@,
        places,
        i,
        j,
        a,
        b,
    );
}

/// The entries of a menu show the states that the controller answers for their nodes: each title is
/// the one that is made for the node's name and the shown form of that state.
pub proof fn menu_state_answers(
    mode: &str,
    order: Option<&TrayProxyGroupOrder>,
    proxies: &Proxies,
    timeout: u32,
    latency: &TrayProxyLatencyController,
    labels: &TrayLabels,
    submenus: Vec<TrayProxySubmenu>,
    i: int,
    k: int,
    group: &str,
    name: &str,
    data: Option<&Proxy>,
    state: TrayDelayState,
    display: TrayDelayDisplay,
    parts: TrayProxyTitleParts,
)
    requires
        proxies.wf(),
        call_ensures(
            TrayProxyMenuBuilder::create_proxy_submenus,
            (mode, order, Some(proxies), timeout, latency, labels),
            submenus,
        ),
        0 <= i < submenus@.len(),
        0 <= k < submenus@[i].nodes@.len(),
        group@ == submenus@[i].title@,
        name@ == proxies@[group@].all->0@[k]@,
        call_ensures(Proxies::get, (proxies, name), data),
        call_ensures(
            TrayProxyLatencyController::state_for_proxy,
            (latency, group, name, data, timeout),
            state,
        ),
        call_ensures(TrayDelayFormatter::display, (state, labels), display),
        call_ensures(TrayDelayFormatter::node_title, (name, &display), parts),
    ensures
        submenus@[i].nodes@[k].title@ == parts.title@,
{
    let places = choose|places: Seq<int>| #[trigger]
        menu::is_menu_order(
            menu::order_of(order),
            menu::listed_menus(
                menu::menu_source(proxies, timeout, latency, labels),
                mode@,
                proxies.order(),
            ),
            menu::menus(submenus@),
            places,
        );
    menu_laws::submenus_hold_all_members_with_their_states(
        mode@,
        order,
        proxies,
        timeout,
        latency,
        labels,
        submenus@,
        places,
        i,
        k,
    );
    latency::keys_spell_group_and_node(group@, name@, group@, name@);
    delay::titles_are_name_tab_delay(name@, display.text@);
    delay::texts_of_states_without_value(*labels);
    state_answers(latency, group, name, data, timeout, state);
}

/// The submenu of a group that is shown lists the group's members in their order. Each entry is
/// checked exactly where it is the selected member, and clicking it selects that member.
pub proof fn submenu_answers(
    mode: &str,
    name: &str,
    data: &Proxy,
    proxies: &Proxies,
    timeout: u32,
    latency: &TrayProxyLatencyController,
    labels: &TrayLabels,
    submenu: Option<TrayProxySubmenu>,
    k: int,
)
    requires
        call_ensures(
            TrayProxyMenuBuilder::create_group_submenu,
            (mode, name, data, proxies, timeout, latency, labels),
            submenu,
        ),
    ensures
        submenu is Some <==> {
            &&& data.hidden != Some(true)
            &&& data.all is Some
            &&& data.all->0@.len() > 0
            &&& mode@ == "global"@ <==> name@ == "GLOBAL"@
        },
        submenu matches Some(submenu) ==> {
            &&& submenu.title@ == name@
            &&& submenu.id@ == "proxy_group_"@ + name@
            &&& submenu.delay_test.title@ == labels.delay_test@
            &&& menu_id::action_of(submenu.delay_test.id@) == Some(
                menu_id::MenuAction::TestGroupDelay { group: name@ },
            )
            &&& submenu.nodes@.len() == data.all->0@.len()
            &&& 0 <= k < submenu.nodes@.len() ==> {
                let node = submenu.nodes@[k];
                let member = data.all->0@[k]@;
                &&& menu_id::action_of(node.id@) == Some(
                    menu_id::MenuAction::SelectNode { group: name@, proxy: member },
                )
                &&& node.title@.take(member.len() as int + 1) == member + "\t"@
                &&& data.now matches Some(now) ==> (node.checked <==> member == now@)
                &&& data.now is None ==> (node.checked <==> member.len() == 0)
            }
        },
{
    let source = menu::menu_source(proxies, timeout, latency, labels);
    menu_laws::shown_groups_by_flag_list_and_name(mode@, name@, *data);
    if data.all is Some {
        assert(data.members().len() == data.all->0@.len());
    }
    if let Some(submenu) = submenu {
        menu_laws::menu_entries_parse_back(source, mode@, name@, *data, submenu@);
        menu_id::ids_spell_out_their_names(name@, name@);
        assert(submenu@.nodes.len() == submenu.nodes@.len());
        if 0 <= k < submenu.nodes@.len() {
            let node = submenu.nodes@[k];
            let member = data.members()[k];
            assert(member == data.all->0@[k]@);
            assert(submenu@.nodes[k] == node@);
            assert(node@ == menu::node_entry(source, name@, data.selected(), member));
            let state = latency::shown_state(
                source.cache,
                name@,
                member,
                menu::listed_delay(source.proxies, member),
                timeout,
            );
            reveal_strlit("\t");
            delay::titles_are_name_tab_delay(member, delay::state_text(state, labels@));
            assert(node.title@.take(member.len() as int + 1) =~= member + "\t"@);
            if data.now is None {
                assert(member.len() == 0 ==> member =~= data.selected());
            }
        }
    }
}

/// Sorted groups are those given, each once. A group with a configured place stands before all
/// without one and before those with a higher place; groups without one stand by their indices; and
/// where nothing decides, groups stay as they stood. Without a configured order nothing moves.
pub proof fn sort_answers<T>(order: &TrayProxyGroupOrder, i: int, j: int)
    ensures
        forall|groups: &mut Vec<(String, usize, T)>|
            (#[trigger] call_ensures(
                TrayProxyMenuBuilder::sort_submenus::<T>,
                (groups, None),
                (),
            )) ==> (*final(groups))@ == (*groups)@,
        forall|groups: &mut Vec<(String, usize, T)>|
            (#[trigger] call_ensures(
                TrayProxyMenuBuilder::sort_submenus::<T>,
                (groups, Some(order)),
                (),
            )) ==> {
                let (before, after) = ((*groups)@, (*final(groups))@);
                &&& after.to_multiset() == before.to_multiset()
                &&& 0 <= i < j < after.len() ==> {
                    let (first, second) = (after[i].0@, after[j].0@);
                    &&& order@.contains_key(second) ==> order@.contains_key(first) && order@[first]
                        <= order@[second]
                    &&& !order@.contains_key(first) && !order@.contains_key(second) ==> after[i].1
                        <= after[j].1
                }
            },
{
    assert forall|groups: &mut Vec<(String, usize, T)>|
        (#[trigger] call_ensures(
            TrayProxyMenuBuilder::sort_submenus::<T>,
            (groups, Some(order)),
            (),
        )) implies {
        let (before, after) = ((*groups)@, (*final(groups))@);
        &&& after.to_multiset() == before.to_multiset()
        &&& 0 <= i < j < after.len() ==> {
            let (first, second) = (after[i].0@, after[j].0@);
            &&& order@.contains_key(second) ==> order@.contains_key(first) && order@[first]
                <= order@[second]
            &&& !order@.contains_key(first) && !order@.contains_key(second) ==> after[i].1
                <= after[j].1
        }
    } by {
        let (before, after) = ((*groups)@, (*final(groups))@);
        let places = choose|places: Seq<int>| #[trigger]
            menu::is_stable_sort(order@, before, after, places);
        menu_laws::sorting_keeps_every_group(order@, before, after, places);
        if 0 <= i < j < after.len() {
            menu_laws::sorted_groups_follow_places_and_indices(order@, before, after, places, i, j);
        }
    }
}

/// The identifiers of a submenu: that of the delay test first, then those of the nodes in order.
pub proof fn item_id_answers(group: &str, names: &[String], ids: Vec<String>, i: int)
    requires
        call_ensures(TrayProxyMenuBuilder::group_item_ids_for_test, (group, names), ids),
    ensures
        ids@.len() == names@.len() + 1,
        menu_id::action_of(ids@[0]@) == Some(
            menu_id::MenuAction::TestGroupDelay { group: group@ },
        ),
        0 <= i < names@.len() ==> menu_id::action_of(ids@[i + 1]@) == Some(
            menu_id::MenuAction::SelectNode { group: group@, proxy: names@[i]@ },
        ),
{
    let all = text::texts(names@);
    menu_laws::item_ids_in_order(group@, all);
    assert(text::texts(ids@).len() == ids@.len());
    assert(text::texts(ids@)[0] == ids@[0]@);
    if 0 <= i < names@.len() {
        assert(text::texts(ids@)[i + 1] == ids@[i + 1]@);
        assert(all[i] == names@[i]@);
    }
}

/// A submenu is made of its delay test and all of its nodes where none of them failed. It is not
/// made without its delay test, nor where every node failed.
pub proof fn created_answers<T>(first: Option<T>, nodes: Vec<Option<T>>, items: Option<Vec<T>>)
    requires
        call_ensures(TrayProxyMenuBuilder::created_items::<T>, (first, nodes), items),
    ensures
        first is None ==> items is None,
        (forall|i: int| 0 <= i < nodes@.len() ==> (#[trigger] nodes@[i]) is None) ==> items is None,
        first is Some && nodes@.len() > 0 && (forall|i: int|
            0 <= i < nodes@.len() ==> (#[trigger] nodes@[i]) is Some) ==> {
            &&& items is Some
            &&& items->0@.len() == nodes@.len() + 1
            &&& items->0@[0] == first->0
            &&& forall|i: int| 0 <= i < nodes@.len() ==> items->0@[i + 1] == (#[trigger] nodes@[i])->0
        },
        first is Some && (exists|i: int| 0 <= i < nodes@.len() && (#[trigger] nodes@[i]) is Some)
            ==> items is Some && items->0@[0] == first->0,
{
    menu_laws::made_entries_of_all_and_none(nodes@);
}

} // verus!
