//! The course of a delay test of a group, as a state machine.
//!
//! Reading the configuration, talking to the core and redrawing the menu are left to the caller.
//! It hands in what happened and carries out the action that it gets back.
use crate::delay;
use crate::delay::TrayDelayState;
use crate::latency;
use crate::latency::{GroupTestInput, Latency, TestInput, TrayProxyLatencyController};
use crate::text;
use vstd::hash_map::StringHashMap;
use vstd::prelude::*;

verus! {

/// How far a delay test has come.
#[derive(Debug, Clone, PartialEq, Eq)]
pub enum GroupTestPhase {
    /// Not requested yet.
    Idle,
    /// Waiting for the list of nodes.
    Collecting,
    /// Waiting for measurements of `names`.
    Measuring { names: Vec<String>, timeout: u32 },
    /// Over.
    Done,
}

/// What happened to a delay test.
#[derive(Debug, Clone, PartialEq, Eq)]
pub enum GroupTestEvent {
    /// The test was asked for.
    Requested,
    /// The nodes to test are known.
    InputReady(GroupTestInput),
    /// The nodes to test could not be found out.
    InputFailed,
    /// The measurement of a node is over; no delay stands for a failed one.
    Measured { name: String, delay: Option<u32> },
    /// No measurement is left.
    Drained,
}

/// What the caller has to do next.
#[derive(Debug, Clone, PartialEq, Eq)]
pub enum GroupTestAction {
    /// Nothing: the group is under test already.
    Skip,
    /// Find out what to test.
    CollectInput,
    /// Redraw the group and start the measurements.
    Measure(GroupTestInput),
    /// Nothing: the group has no nodes.
    NothingToTest,
    /// Report that the nodes to test could not be found out.
    Fail,
    /// Redraw the group.
    Refresh,
    /// Report the end of the test.
    Finish,
    /// Nothing: the event does not belong to the phase.
    Ignore,
}

/// A delay test of one group.
pub struct GroupDelayTest {
    group: String,
    phase: GroupTestPhase,
}

/// How far a delay test has come, with names as character sequences.
pub enum TestPhase {
    Idle,
    Collecting,
    Measuring { names: Seq<Seq<char>>, timeout: u32 },
    Done,
}

/// What happened to a delay test, with names as character sequences.
pub enum TestEvent {
    Requested,
    InputReady(TestInput),
    InputFailed,
    Measured { name: Seq<char>, delay: Option<u32> },
    Drained,
}

/// What the caller has to do next, with names as character sequences.
pub enum TestAction {
    Skip,
    CollectInput,
    Measure(TestInput),
    NothingToTest,
    Fail,
    Refresh,
    Finish,
    Ignore,
}

/// A delay test of one group: the group and how far the test has come.
pub struct GroupTest {
    pub group: Seq<char>,
    pub phase: TestPhase,
}

impl View for GroupTestPhase {
    type V = TestPhase;

    open spec fn view(&self) -> TestPhase {
        match *self {
            GroupTestPhase::Idle => TestPhase::Idle,
            GroupTestPhase::Collecting => TestPhase::Collecting,
            GroupTestPhase::Measuring { names, timeout } => TestPhase::Measuring {
                names: text::texts(names@),
                timeout,
            },
            GroupTestPhase::Done => TestPhase::Done,
        }
    }
}

impl View for GroupTestEvent {
    type V = TestEvent;

    open spec fn view(&self) -> TestEvent {
        match *self {
            GroupTestEvent::Requested => TestEvent::Requested,
            GroupTestEvent::InputReady(input) => TestEvent::InputReady(input@),
            GroupTestEvent::InputFailed => TestEvent::InputFailed,
            GroupTestEvent::Measured { name, delay } => TestEvent::Measured { name: name@, delay },
            GroupTestEvent::Drained => TestEvent::Drained,
        }
    }
}

impl View for GroupTestAction {
    type V = TestAction;

    open spec fn view(&self) -> TestAction {
        match *self {
            GroupTestAction::Skip => TestAction::Skip,
            GroupTestAction::CollectInput => TestAction::CollectInput,
            GroupTestAction::Measure(input) => TestAction::Measure(input@),
            GroupTestAction::NothingToTest => TestAction::NothingToTest,
            GroupTestAction::Fail => TestAction::Fail,
            GroupTestAction::Refresh => TestAction::Refresh,
            GroupTestAction::Finish => TestAction::Finish,
            GroupTestAction::Ignore => TestAction::Ignore,
        }
    }
}

impl View for GroupDelayTest {
    type V = GroupTest;

    closed spec fn view(&self) -> GroupTest {
        GroupTest { group: self.group@, phase: self.phase@ }
    }
}

/// One transition: the test, the known states and the next action after an event.
pub open spec fn stepped(test: GroupTest, latency: Latency, event: TestEvent) -> (
    GroupTest,
    Latency,
    TestAction,
) {
    let group = test.group;
    let over = GroupTest { group, phase: TestPhase::Done };
    let released = Latency { testing_groups: latency.testing_groups.remove(group), ..latency };
    match (test.phase, event) {
        (TestPhase::Idle, TestEvent::Requested) => if latency.testing_groups.contains(group) {
            (over, latency, TestAction::Skip)
        } else {
            (
                GroupTest { group, phase: TestPhase::Collecting },
                Latency { testing_groups: latency.testing_groups.insert(group), ..latency },
                TestAction::CollectInput,
            )
        },
        (TestPhase::Collecting, TestEvent::InputFailed) => (over, released, TestAction::Fail),
        (TestPhase::Collecting, TestEvent::InputReady(input)) => if input.names.len() == 0 {
            (over, released, TestAction::NothingToTest)
        } else {
            (
                GroupTest {
                    group,
                    phase: TestPhase::Measuring { names: input.names, timeout: input.timeout },
                },
                Latency {
                    cache: latency::marked_testing(latency.cache, group, input.names),
                    ..latency
                },
                TestAction::Measure(input),
            )
        },
        (TestPhase::Measuring { names, timeout }, TestEvent::Measured { name, delay }) => (
            test,
            Latency {
                cache: latency.cache.insert(
                    latency::key_of(group, name),
                    latency::outcome(delay, timeout),
                ),
                ..latency
            },
            TestAction::Refresh,
        ),
        (TestPhase::Measuring { .. }, TestEvent::Drained) => (over, released, TestAction::Finish),
        _ => (test, latency, TestAction::Ignore),
    }
}

impl GroupDelayTest {
    /// A test of `group` that has not been requested yet.
    pub fn new(group: &str) -> (test: Self)
        ensures
            test@ == (GroupTest { group: group@, phase: TestPhase::Idle }),
    {
        GroupDelayTest { group: group.to_owned(), phase: GroupTestPhase::Idle }
    }

    /// The group under test.
    pub fn group(&self) -> (group: &str)
        ensures
            group@ == self@.group,
    {
        self.group.as_str()
    }

    /// Takes in an event and answers what to do next.
    pub fn step(
        &mut self,
        controller: &mut TrayProxyLatencyController,
        event: GroupTestEvent,
    ) -> (action: GroupTestAction)
        ensures
            (final(self)@, final(controller)@, action@) == stepped(
                old(self)@,
                old(controller)@,
                event@,
            ),
    {
        match event {
            GroupTestEvent::Requested => match &self.phase {
                GroupTestPhase::Idle => if controller.begin_group_test(self.group.as_str()) {
                    self.phase = GroupTestPhase::Collecting;
                    GroupTestAction::CollectInput
                } else {
                    self.phase = GroupTestPhase::Done;
                    assert(controller@ =~= old(controller)@);
                    GroupTestAction::Skip
                },
                _ => GroupTestAction::Ignore,
            },
            GroupTestEvent::InputFailed => match &self.phase {
                GroupTestPhase::Collecting => {
                    controller.end_group_test(self.group.as_str());
                    self.phase = GroupTestPhase::Done;
                    GroupTestAction::Fail
                },
                _ => GroupTestAction::Ignore,
            },
            GroupTestEvent::InputReady(input) => match &self.phase {
                GroupTestPhase::Collecting => if input.names.len() == 0 {
                    controller.end_group_test(self.group.as_str());
                    self.phase = GroupTestPhase::Done;
                    GroupTestAction::NothingToTest
                } else {
                    controller.mark_group_testing(self.group.as_str(), input.names.as_slice());
                    self.phase = GroupTestPhase::Measuring {
                        names: text::clone_texts(&input.names),
                        timeout: input.timeout,
                    };
                    GroupTestAction::Measure(input)
                },
                _ => GroupTestAction::Ignore,
            },
            GroupTestEvent::Measured { name, delay } => match &self.phase {
                GroupTestPhase::Measuring { names: _, timeout } => {
                    let state = TrayProxyLatencyController::state_from_measurement(delay, *timeout);
                    controller.set_state(self.group.as_str(), name.as_str(), state);
                    GroupTestAction::Refresh
                },
                _ => GroupTestAction::Ignore,
            },
            GroupTestEvent::Drained => match &self.phase {
                GroupTestPhase::Measuring { .. } => {
                    controller.end_group_test(self.group.as_str());
                    self.phase = GroupTestPhase::Done;
                    GroupTestAction::Finish
                },
                _ => GroupTestAction::Ignore,
            },
        }
    }

    /// What to redraw: the known states of the nodes under test, none outside the measurements.
    pub fn snapshot(&self, controller: &TrayProxyLatencyController) -> (states: StringHashMap<
        TrayDelayState,
    >)
        ensures
            states@ == (match self@.phase {
                TestPhase::Measuring { names, timeout } => latency::known_states(
                    controller@.cache,
                    self@.group,
                    names,
                ),
                _ => Map::empty(),
            }),
    {
        match &self.phase {
            GroupTestPhase::Measuring { names, timeout: _ } => controller.group_state_snapshot(
                self.group.as_str(),
                names.as_slice(),
            ),
            _ => StringHashMap::new(),
        }
    }
}

/// Whether a test is between its request and its end.
pub open spec fn is_running(test: GroupTest) -> bool {
    test.phase is Collecting || test.phase is Measuring
}

/// A running test has its group among those under test.
pub open spec fn holds_group(test: GroupTest, latency: Latency) -> bool {
    is_running(test) ==> latency.testing_groups.contains(test.group)
}

/// A request for a group that is under test is skipped, and nothing that is known changes.
pub proof fn repeated_request_is_skipped(test: GroupTest, latency: Latency)
    requires
        test.phase is Idle,
        latency.testing_groups.contains(test.group),
    ensures
        stepped(test, latency, TestEvent::Requested) == (
            GroupTest { group: test.group, phase: TestPhase::Done },
            latency,
            TestAction::Skip,
        ),
{
}

/// Whatever happens to one of two tests, running tests keep holding their groups, and the two
/// never run at the same time on one group.
pub proof fn one_test_per_group(test: GroupTest, other: GroupTest, latency: Latency, event: TestEvent)
    requires
        holds_group(test, latency),
        holds_group(other, latency),
        !(is_running(test) && is_running(other) && test.group == other.group),
    ensures
        ({
            let (next, after, _) = stepped(test, latency, event);
            &&& next.group == test.group
            &&& holds_group(next, after)
            &&& holds_group(other, after)
            &&& !(is_running(next) && is_running(other) && next.group == other.group)
        }),
{
}

/// A test that ends frees its group: the next request for it is taken up.
pub proof fn ended_test_frees_its_group(
    test: GroupTest,
    latency: Latency,
    event: TestEvent,
    next: GroupTest,
)
    requires
        is_running(test),
        stepped(test, latency, event).0.phase is Done,
        next == (GroupTest { group: test.group, phase: TestPhase::Idle }),
    ensures
        !stepped(test, latency, event).1.testing_groups.contains(test.group),
        stepped(next, stepped(test, latency, event).1, TestEvent::Requested).2
            == TestAction::CollectInput,
{
}

/// A test and the known states after some events, one after the other.
pub open spec fn run(test: GroupTest, latency: Latency, events: Seq<TestEvent>) -> (
    GroupTest,
    Latency,
)
    decreases events.len(),
{
    if events.len() == 0 {
        (test, latency)
    } else {
        let (before, known) = run(test, latency, events.drop_last());
        let (after, now_known, _) = stepped(before, known, events.last());
        (after, now_known)
    }
}

/// The events of finished measurements.
pub open spec fn measurements(results: Seq<(Seq<char>, Option<u32>)>) -> Seq<TestEvent> {
    results.map_values(
        |result: (Seq<char>, Option<u32>)| TestEvent::Measured { name: result.0, delay: result.1 },
    )
}

/// The events of a test that goes through: the request, what to test, every result and the end.
pub open spec fn full_test(input: TestInput, results: Seq<(Seq<char>, Option<u32>)>) -> Seq<
    TestEvent,
> {
    seq![TestEvent::Requested, TestEvent::InputReady(input)] + measurements(results) + seq![
        TestEvent::Drained,
    ]
}

/// Whether the result at `at` is the last one for its node.
pub open spec fn is_last_result(results: Seq<(Seq<char>, Option<u32>)>, at: int) -> bool {
    &&& 0 <= at < results.len()
    &&& forall|later: int| at < later < results.len() ==> (#[trigger] results[later]).0 != results[at].0
}

/// `cache` with the results of measurements recorded, one after the other.
pub open spec fn recorded(
    cache: Map<Seq<char>, TrayDelayState>,
    group: Seq<char>,
    timeout: u32,
    results: Seq<(Seq<char>, Option<u32>)>,
) -> Map<Seq<char>, TrayDelayState>
    decreases results.len(),
{
    if results.len() == 0 {
        cache
    } else {
        recorded(cache, group, timeout, results.drop_last()).insert(
            latency::key_of(group, results.last().0),
            latency::outcome(results.last().1, timeout),
        )
    }
}

/// The last result of a node is the one that stays recorded.
proof fn lemma_last_result_stays(
    cache: Map<Seq<char>, TrayDelayState>,
    group: Seq<char>,
    timeout: u32,
    results: Seq<(Seq<char>, Option<u32>)>,
    at: int,
)
    requires
        is_last_result(results, at),
    ensures
        ({
            let key = latency::key_of(group, results[at].0);
            let after = recorded(cache, group, timeout, results);
            after.contains_key(key) && after[key] == latency::outcome(results[at].1, timeout)
        }),
    decreases results.len(),
{
    let rest = results.drop_last();
    if at < rest.len() {
        assert(results[results.len() - 1].0 != results[at].0);
        latency::keys_in_a_group_are_distinct(group, results[at].0, results.last().0);
        assert forall|later: int| at < later < rest.len() implies (#[trigger] rest[later]).0
            != rest[at].0 by {
            assert(results[later].0 != results[at].0);
        }
        lemma_last_result_stays(cache, group, timeout, rest, at);
    }
}

/// Results of some nodes leave every other key as it was.
proof fn lemma_other_keys_stay(
    cache: Map<Seq<char>, TrayDelayState>,
    group: Seq<char>,
    timeout: u32,
    results: Seq<(Seq<char>, Option<u32>)>,
    key: Seq<char>,
)
    requires
        forall|at: int|
            0 <= at < results.len() ==> key != latency::key_of(group, (#[trigger] results[at]).0),
    ensures
        recorded(cache, group, timeout, results).contains_key(key) == cache.contains_key(key),
        recorded(cache, group, timeout, results)[key] == cache[key],
    decreases results.len(),
{
    if results.len() > 0 {
        let rest = results.drop_last();
        assert(key != latency::key_of(group, results[results.len() - 1].0));
        assert forall|at: int| 0 <= at < rest.len() implies key != latency::key_of(
            group,
            (#[trigger] rest[at]).0,
        ) by {
            assert(results[at] == rest[at]);
        }
        lemma_other_keys_stay(cache, group, timeout, rest, key);
    }
}

/// The state of a test that has begun to measure and has taken in some results.
proof fn lemma_measuring(
    group: Seq<char>,
    latency: Latency,
    input: TestInput,
    results: Seq<(Seq<char>, Option<u32>)>,
)
    requires
        !latency.testing_groups.contains(group),
        input.names.len() > 0,
    ensures
        run(
            GroupTest { group, phase: TestPhase::Idle },
            latency,
            seq![TestEvent::Requested, TestEvent::InputReady(input)] + measurements(results),
        ) == (
            GroupTest {
                group,
                phase: TestPhase::Measuring { names: input.names, timeout: input.timeout },
            },
            Latency {
                cache: recorded(
                    latency::marked_testing(latency.cache, group, input.names),
                    group,
                    input.timeout,
                    results,
                ),
                testing_groups: latency.testing_groups.insert(group),
            },
        ),
    decreases results.len(),
{
    let start = seq![TestEvent::Requested, TestEvent::InputReady(input)];
    let events = start + measurements(results);
    if results.len() == 0 {
        assert(events =~= start);
        assert(start.drop_last() =~= seq![TestEvent::Requested]);
        assert(start.drop_last().drop_last() =~= seq![]);
        reveal_with_fuel(run, 3);
    } else {
        lemma_measuring(group, latency, input, results.drop_last());
        assert(events.drop_last() =~= start + measurements(results.drop_last()));
    }
}

/// A test that goes through shows every measured node by its last result, frees the group and
/// keeps all other groups as they were. Where each node has a result, none is left under test,
/// and entries of other nodes are untouched.
pub proof fn full_test_shows_results(
    group: Seq<char>,
    latency: Latency,
    input: TestInput,
    results: Seq<(Seq<char>, Option<u32>)>,
)
    requires
        !latency.testing_groups.contains(group),
        input.names.len() > 0,
        forall|i: int|
            0 <= i < input.names.len() ==> exists|at: int|
                0 <= at < results.len() && (#[trigger] results[at]).0 == #[trigger] input.names[i],
        forall|at: int|
            0 <= at < results.len() ==> input.names.contains((#[trigger] results[at]).0),
    ensures
        ({
            let test = GroupTest { group, phase: TestPhase::Idle };
            let (after, known) = run(test, latency, full_test(input, results));
            &&& after == (GroupTest { group, phase: TestPhase::Done })
            &&& known.testing_groups == latency.testing_groups
            &&& forall|at: int, latest: Option<u32>, timeout: u32|
                is_last_result(results, at) ==> #[trigger] latency::shown_state(
                    known.cache,
                    group,
                    results[at].0,
                    latest,
                    timeout,
                ) == latency::outcome(results[at].1, input.timeout)
            &&& forall|i: int, latest: Option<u32>, timeout: u32|
                0 <= i < input.names.len() ==> !(#[trigger] latency::shown_state(
                    known.cache,
                    group,
                    input.names[i],
                    latest,
                    timeout,
                ) is Testing)
            &&& forall|key: Seq<char>|
                !(#[trigger] latency::is_key_of_any(key, group, input.names)) ==> {
                    &&& known.cache.contains_key(key) == latency.cache.contains_key(key)
                    &&& known.cache[key] == latency.cache[key]
                }
        }),
{
    let test = GroupTest { group, phase: TestPhase::Idle };
    let events = full_test(input, results);
    let start = seq![TestEvent::Requested, TestEvent::InputReady(input)] + measurements(results);
    let marked = latency::marked_testing(latency.cache, group, input.names);
    let (_, known) = run(test, latency, events);
    lemma_measuring(group, latency, input, results);
    assert(events.drop_last() =~= start);
    assert(known.testing_groups =~= latency.testing_groups);
    assert(known.cache == recorded(marked, group, input.timeout, results));
    assert forall|at: int, latest: Option<u32>, timeout: u32| is_last_result(results, at) implies
        #[trigger] latency::shown_state(known.cache, group, results[at].0, latest, timeout)
        == latency::outcome(results[at].1, input.timeout) by {
        lemma_last_result_stays(marked, group, input.timeout, results, at);
    }
    assert forall|i: int, latest: Option<u32>, timeout: u32| 0 <= i < input.names.len() implies !(
    #[trigger] latency::shown_state(known.cache, group, input.names[i], latest, timeout) is Testing) by {
        let at = choose|at: int|
            0 <= at < results.len() && (#[trigger] results[at]).0 == input.names[i];
        let last = lemma_last_result(results, at);
        lemma_last_result_stays(marked, group, input.timeout, results, last);
        if let Some(delay) = results[last].1 {
            delay::measured_states_are_final(delay, input.timeout);
        }
    }
    assert forall|key: Seq<char>|
        !(#[trigger] latency::is_key_of_any(key, group, input.names)) implies {
        &&& known.cache.contains_key(key) == latency.cache.contains_key(key)
        &&& known.cache[key] == latency.cache[key]
    } by {
        latency::marked_nodes_are_testing(latency.cache, group, input.names, key);
        assert forall|at: int| 0 <= at < results.len() implies key != latency::key_of(
            group,
            (#[trigger] results[at]).0,
        ) by {
            let i = choose|i: int| 0 <= i < input.names.len() && input.names[i] == results[at].0;
            assert(input.names.contains(results[at].0));
            assert(key != latency::key_of(group, input.names[i]));
        }
        lemma_other_keys_stay(marked, group, input.timeout, results, key);
    }
}

/// A node with a result has a last one.
proof fn lemma_last_result(results: Seq<(Seq<char>, Option<u32>)>, at: int) -> (last: int)
    requires
        0 <= at < results.len(),
    ensures
        is_last_result(results, last),
        results[last].0 == results[at].0,
    decreases results.len() - at,
{
    if is_last_result(results, at) {
        at
    } else {
        let later = choose|later: int|
            at < later < results.len() && (#[trigger] results[later]).0 == results[at].0;
        lemma_last_result(results, later)
    }
}

/// Views keep what they show: the words of an event, an action and a phase are those of their
/// executable forms.
pub proof fn test_views_keep_their_parts(
    input: GroupTestInput,
    name: String,
    delay: Option<u32>,
    names: Vec<String>,
    timeout: u32,
)
    ensures
        GroupTestEvent::Requested@ == TestEvent::Requested,
        GroupTestEvent::InputReady(input)@ == TestEvent::InputReady(input@),
        GroupTestEvent::InputFailed@ == TestEvent::InputFailed,
        (GroupTestEvent::Measured { name, delay })@ == (TestEvent::Measured { name: name@, delay }),
        GroupTestEvent::Drained@ == TestEvent::Drained,
        GroupTestAction::Skip@ == TestAction::Skip,
        GroupTestAction::CollectInput@ == TestAction::CollectInput,
        GroupTestAction::Measure(input)@ == TestAction::Measure(input@),
        GroupTestAction::NothingToTest@ == TestAction::NothingToTest,
        GroupTestAction::Fail@ == TestAction::Fail,
        GroupTestAction::Refresh@ == TestAction::Refresh,
        GroupTestAction::Finish@ == TestAction::Finish,
        GroupTestAction::Ignore@ == TestAction::Ignore,
        (GroupTestPhase::Measuring { names, timeout })@ == (TestPhase::Measuring {
            names: text::texts(names@),
            timeout,
        }),
{
}

/// A request for a group that is not under test puts it under test, and asks for what to test.
/// Nothing else that is known changes.
pub proof fn request_takes_the_group(test: GroupTest, latency: Latency, other: Seq<char>)
    requires
        test.phase is Idle,
        !latency.testing_groups.contains(test.group),
    ensures
        ({
            let (next, after, action) = stepped(test, latency, TestEvent::Requested);
            &&& action == TestAction::CollectInput
            &&& next.phase is Collecting
            &&& next.group == test.group
            &&& after.cache == latency.cache
            &&& after.testing_groups.contains(test.group)
            &&& other != test.group ==> after.testing_groups.contains(other)
                == latency.testing_groups.contains(other)
        }),
{
}

/// A test that finds nodes marks each of them as under test and measures exactly the given input.
/// Every other entry, and the groups under test, stay. One that finds none, or cannot find out,
/// ends, frees its group and leaves all entries as they are.
pub proof fn input_is_measured_or_the_test_ends(
    test: GroupTest,
    latency: Latency,
    input: TestInput,
    other: Seq<char>,
)
    requires
        test.phase is Collecting,
    ensures
        ({
            let (next, after, action) = stepped(test, latency, TestEvent::InputReady(input));
            &&& next.group == test.group
            &&& input.names.len() > 0 ==> {
                &&& action == TestAction::Measure(input)
                &&& next.phase == (TestPhase::Measuring {
                    names: input.names,
                    timeout: input.timeout,
                })
                &&& after.testing_groups == latency.testing_groups
                &&& forall|i: int|
                    0 <= i < input.names.len() ==> {
                        let key = test.group + "::"@ + #[trigger] input.names[i];
                        after.cache.contains_key(key) && after.cache[key] == TrayDelayState::Testing
                    }
                &&& (forall|i: int|
                    0 <= i < input.names.len() ==> other != test.group + "::"@
                        + #[trigger] input.names[i]) ==> {
                    &&& after.cache.contains_key(other) == latency.cache.contains_key(other)
                    &&& after.cache[other] == latency.cache[other]
                }
            }
            &&& input.names.len() == 0 ==> {
                &&& action == TestAction::NothingToTest
                &&& next.phase is Done
                &&& after.cache == latency.cache
                &&& after.testing_groups == latency.testing_groups.remove(test.group)
            }
        }),
        ({
            let (next, after, action) = stepped(test, latency, TestEvent::InputFailed);
            &&& next.group == test.group
            &&& action == TestAction::Fail
            &&& next.phase is Done
            &&& after.cache == latency.cache
            &&& after.testing_groups == latency.testing_groups.remove(test.group)
        }),
{
    if input.names.len() > 0 {
        assert forall|i: int| 0 <= i < input.names.len() implies {
            let key = test.group + "::"@ + #[trigger] input.names[i];
            let marked = latency::marked_testing(latency.cache, test.group, input.names);
            marked.contains_key(key) && marked[key] == TrayDelayState::Testing
        } by {
            latency::marking_touches_the_given_nodes(
                latency.cache,
                test.group,
                input.names,
                i,
                other,
            );
        }
        latency::marking_touches_the_given_nodes(latency.cache, test.group, input.names, 0, other);
    }
}

/// A finished measurement is recorded for its node under the timeout of the test: as a value below
/// the timeout and up to a hundred seconds, as a timeout where it reaches the timeout or is zero,
/// and as an error beyond a hundred seconds or where it failed. The menu is redrawn, the test goes
/// on, and nothing else changes.
pub proof fn measurements_are_recorded_in_numbers(
    group: Seq<char>,
    names: Seq<Seq<char>>,
    timeout: u32,
    latency: Latency,
    name: Seq<char>,
    delay: Option<u32>,
    other: Seq<char>,
)
    ensures
        ({
            let test = GroupTest { group, phase: TestPhase::Measuring { names, timeout } };
            let (next, after, action) = stepped(
                test,
                latency,
                TestEvent::Measured { name, delay },
            );
            let key = group + "::"@ + name;
            &&& next == test
            &&& action == TestAction::Refresh
            &&& after.testing_groups == latency.testing_groups
            &&& after.cache.contains_key(key)
            &&& match delay {
                Some(delay) => {
                    &&& 0 < delay < timeout && delay <= 100_000 ==> after.cache[key]
                        == TrayDelayState::Value(delay)
                    &&& delay == 0 || timeout <= delay <= 100_000 ==> after.cache[key]
                        == TrayDelayState::Timeout
                    &&& delay > 100_000 ==> after.cache[key] == TrayDelayState::Error
                },
                None => after.cache[key] == TrayDelayState::Error,
            }
            &&& other != key ==> {
                &&& after.cache.contains_key(other) == latency.cache.contains_key(other)
                &&& after.cache[other] == latency.cache[other]
            }
        }),
{
    latency::keys_spell_group_and_node(group, name, group, name);
}

/// A test without open measurements ends, frees its group and leaves all entries as they are.
pub proof fn drained_test_ends(test: GroupTest, latency: Latency)
    requires
        test.phase is Measuring,
    ensures
        ({
            let (next, after, action) = stepped(test, latency, TestEvent::Drained);
            &&& next.group == test.group
            &&& next.phase is Done
            &&& action == TestAction::Finish
            &&& after.cache == latency.cache
            &&& after.testing_groups == latency.testing_groups.remove(test.group)
        }),
{
}

/// An event that does not belong to the phase of a test changes nothing and asks for nothing.
pub proof fn stray_events_change_nothing(test: GroupTest, latency: Latency, event: TestEvent)
    requires
        event is Requested ==> !(test.phase is Idle),
        event is InputReady || event is InputFailed ==> !(test.phase is Collecting),
        event is Measured || event is Drained ==> !(test.phase is Measuring),
    ensures
        stepped(test, latency, event) == (test, latency, TestAction::Ignore),
{
}

/// After a test that went through, a node whose last result is a delay below the timeout and up to
/// a hundred seconds is shown with that very delay, whatever its history and the timeout in force
/// later on. Other delays are shown as a timeout or an error, and failures as an error.
pub proof fn full_test_shows_measured_delays(
    group: Seq<char>,
    latency: Latency,
    input: TestInput,
    results: Seq<(Seq<char>, Option<u32>)>,
    at: int,
    latest: Option<u32>,
    timeout: u32,
)
    requires
        !latency.testing_groups.contains(group),
        input.names.len() > 0,
        0 <= at < results.len(),
        forall|later: int|
            at < later < results.len() ==> (#[trigger] results[later]).0 != results[at].0,
    ensures
        ({
            let test = GroupTest { group, phase: TestPhase::Idle };
            let (after, known) = run(
                test,
                latency,
                seq![TestEvent::Requested, TestEvent::InputReady(input)] + Seq::new(
                    results.len(),
                    |i: int| TestEvent::Measured { name: results[i].0, delay: results[i].1 },
                ) + seq![TestEvent::Drained],
            );
            let shown = latency::shown_state(known.cache, group, results[at].0, latest, timeout);
            &&& after.phase is Done
            &&& !known.testing_groups.contains(group)
            &&& match results[at].1 {
                Some(delay) => {
                    &&& 0 < delay < input.timeout && delay <= 100_000 ==> shown
                        == TrayDelayState::Value(delay)
                    &&& delay == 0 || input.timeout <= delay <= 100_000 ==> shown
                        == TrayDelayState::Timeout
                    &&& delay > 100_000 ==> shown == TrayDelayState::Error
                },
                None => shown == TrayDelayState::Error,
            }
        }),
{
    let events = full_test(input, results);
    let start = seq![TestEvent::Requested, TestEvent::InputReady(input)] + measurements(results);
    let marked = latency::marked_testing(latency.cache, group, input.names);
    lemma_measuring(group, latency, input, results);
    assert(events.drop_last() =~= start);
    assert(measurements(results) =~= Seq::new(
        results.len(),
        |i: int| TestEvent::Measured { name: results[i].0, delay: results[i].1 },
    ));
    assert(is_last_result(results, at));
    lemma_last_result_stays(marked, group, input.timeout, results, at);
}

/// Events are taken in one after the other, from the first to the last.
pub proof fn runs_go_event_by_event(
    test: GroupTest,
    latency: Latency,
    events: Seq<TestEvent>,
    event: TestEvent,
)
    ensures
        run(test, latency, Seq::<TestEvent>::empty()) == (test, latency),
        ({
            let (before, known) = run(test, latency, events);
            let (after, now_known, _) = stepped(before, known, event);
            run(test, latency, events.push(event)) == (after, now_known)
        }),
{
    assert(events.push(event).drop_last() =~= events);
}

} // verus!
