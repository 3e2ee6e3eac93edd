//! The delay states that the tray knows, and which groups are being tested.
use crate::config;
use crate::delay;
use crate::delay::{TrayDelayFormatter, TrayDelayState};
use crate::proxies::{DelayHistory, Proxies, Proxy};
use crate::text;
use vstd::hash_map::StringHashMap;
use vstd::hash_set::StringHashSet;
use vstd::prelude::*;

verus! {

/// The cache key of a node in a group.
pub open spec fn key_of(group: Seq<char>, proxy: Seq<char>) -> Seq<char> {
    group + seq![':', ':'] + proxy
}

/// The state to show for a node: the cached one, or else what its latest measurement leads to.
pub open spec fn shown_state(
    cache: Map<Seq<char>, TrayDelayState>,
    group: Seq<char>,
    proxy: Seq<char>,
    latest_delay: Option<u32>,
    timeout: u32,
) -> TrayDelayState {
    if cache.contains_key(key_of(group, proxy)) {
        cache[key_of(group, proxy)]
    } else {
        match latest_delay {
            Some(delay) => delay::measured_state(delay, timeout),
            None => TrayDelayState::Unknown,
        }
    }
}

/// The latest delay of a proxy that may be missing.
pub open spec fn latest_delay_of(proxy: Option<&Proxy>) -> Option<u32> {
    match proxy {
        Some(proxy) => proxy.latest_delay(),
        None => None,
    }
}

/// `cache` with the given nodes of `group` under test.
pub open spec fn marked_testing(
    cache: Map<Seq<char>, TrayDelayState>,
    group: Seq<char>,
    names: Seq<Seq<char>>,
) -> Map<Seq<char>, TrayDelayState>
    decreases names.len(),
{
    if names.len() == 0 {
        cache
    } else {
        marked_testing(cache, group, names.drop_last()).insert(
            key_of(group, names.last()),
            TrayDelayState::Testing,
        )
    }
}

/// The cached states of the given nodes of `group` by name, without the nodes that have none.
pub open spec fn known_states(
    cache: Map<Seq<char>, TrayDelayState>,
    group: Seq<char>,
    names: Seq<Seq<char>>,
) -> Map<Seq<char>, TrayDelayState> {
    Map::new(
        |name: Seq<char>| names.contains(name) && cache.contains_key(key_of(group, name)),
        |name: Seq<char>| cache[key_of(group, name)],
    )
}

/// The members of a group; none where there is no such group.
pub open spec fn group_members(proxies: Map<Seq<char>, Proxy>, group: Seq<char>) -> Seq<Seq<char>> {
    if proxies.contains_key(group) {
        proxies[group].members()
    } else {
        seq![]
    }
}

/// The state that a finished measurement leads to; `None` stands for a failed one.
pub open spec fn outcome(delay: Option<u32>, timeout: u32) -> TrayDelayState {
    match delay {
        Some(delay) => delay::measured_state(delay, timeout),
        None => TrayDelayState::Error,
    }
}

/// What a delay test of a group works on.
#[derive(Debug, Clone, PartialEq, Eq)]
pub struct GroupTestInput {
    /// The nodes to measure.
    pub names: Vec<String>,
    /// The page to fetch through each node.
    pub test_url: String,
    /// The timeout in milliseconds.
    pub timeout: u32,
}

/// What a delay test works on, with its texts as character sequences.
pub struct TestInput {
    pub names: Seq<Seq<char>>,
    pub test_url: Seq<char>,
    pub timeout: u32,
}

impl View for GroupTestInput {
    type V = TestInput;

    open spec fn view(&self) -> TestInput {
        TestInput {
            names: text::texts(self.names@),
            test_url: self.test_url@,
            timeout: self.timeout,
        }
    }
}

/// What a test of `group` works on, given the trimmed test page setting and the timeout setting.
pub open spec fn test_input(
    group: Seq<char>,
    proxies: Map<Seq<char>, Proxy>,
    trimmed_url: Option<Seq<char>>,
    timeout: Option<i16>,
) -> TestInput {
    TestInput {
        names: group_members(proxies, group),
        test_url: config::test_url(trimmed_url),
        timeout: config::latency_timeout(timeout),
    }
}

/// What a controller holds: the states by cache key, and the groups under test.
#[verifier::ext_equal]
pub struct Latency {
    pub cache: Map<Seq<char>, TrayDelayState>,
    pub testing_groups: Set<Seq<char>>,
}

/// The delay states that the tray knows, and which groups are being tested.
pub struct TrayProxyLatencyController {
    cache: StringHashMap<TrayDelayState>,
    testing_groups: StringHashSet,
}

impl View for TrayProxyLatencyController {
    type V = Latency;

    closed spec fn view(&self) -> Latency {
        Latency { cache: self.cache@, testing_groups: self.testing_groups@ }
    }
}

impl Default for TrayProxyLatencyController {
    /// Nothing known, nothing under test.
    fn default() -> (controller: Self)
        ensures
            controller@.cache == Map::<Seq<char>, TrayDelayState>::empty(),
            controller@.testing_groups == Set::<Seq<char>>::empty(),
    {
        TrayProxyLatencyController {
            cache: StringHashMap::new(),
            testing_groups: StringHashSet::new(),
        }
    }
}

impl TrayProxyLatencyController {
    /// The state to show for a node. The cached state comes first, then the latest entry of the
    /// node's own history.
    pub fn state_for_proxy(
        &self,
        group: &str,
        proxy: &str,
        proxy_data: Option<&Proxy>,
        timeout: u32,
    ) -> (state: TrayDelayState)
        ensures
            state == shown_state(
                self@.cache,
                group@,
                proxy@,
                latest_delay_of(proxy_data),
                timeout,
            ),
    {
        let key = Self::cache_key(group, proxy);
        if let Some(state) = self.cache.get(key.as_str()) {
            return *state;
        }
        match proxy_data {
            Some(data) => {
                let count = data.history.len();
                if count > 0 {
                    TrayDelayFormatter::state_from_delay(data.history[count - 1].delay, timeout)
                } else {
                    TrayDelayState::Unknown
                }
            },
            None => TrayDelayState::Unknown,
        }
    }

    /// Starts a test of `group`, unless one is under way. Answers whether it started.
    pub fn begin_group_test(&mut self, group: &str) -> (started: bool)
        ensures
            started == !old(self)@.testing_groups.contains(group@),
            final(self)@.testing_groups == old(self)@.testing_groups.insert(group@),
            final(self)@.cache == old(self)@.cache,
    {
        self.testing_groups.insert(group.to_owned())
    }

    /// Ends the test of `group`, so that it can be tested again.
    pub fn end_group_test(&mut self, group: &str)
        ensures
            final(self)@.testing_groups == old(self)@.testing_groups.remove(group@),
            final(self)@.cache == old(self)@.cache,
    {
        let _was_testing = self.testing_groups.remove(group);
    }

    /// Marks the given nodes of `group` as under test.
    pub fn mark_group_testing(&mut self, group: &str, names: &[String])
        ensures
            final(self)@.cache == marked_testing(old(self)@.cache, group@, text::texts(names@)),
            final(self)@.testing_groups == old(self)@.testing_groups,
    {
        let ghost all = text::texts(names@);
        let mut i: usize = 0;
        while i < names.len()
            invariant
                i <= names@.len(),
                all == text::texts(names@),
                self@.cache == marked_testing(old(self)@.cache, group@, all.take(i as int)),
                self@.testing_groups == old(self)@.testing_groups,
            decreases names@.len() - i,
        {
            assert(all.take(i + 1).drop_last() =~= all.take(i as int));
            self.set_state(group, names[i].as_str(), TrayDelayState::Testing);
            i = i + 1;
        }
        assert(all.take(i as int) =~= all);
    }

    /// Records the state of one node.
    pub fn set_state(&mut self, group: &str, name: &str, state: TrayDelayState)
        ensures
            final(self)@.cache == old(self)@.cache.insert(key_of(group@, name@), state),
            final(self)@.testing_groups == old(self)@.testing_groups,
    {
        self.cache.insert(Self::cache_key(group, name), state);
    }

    /// The cached states of the given nodes of `group`, by name. Nodes without one are left out.
    pub fn group_state_snapshot(&self, group: &str, names: &[String]) -> (states: StringHashMap<
        TrayDelayState,
    >)
        ensures
            states@ == known_states(self@.cache, group@, text::texts(names@)),
    {
        let ghost all = text::texts(names@);
        let mut states: StringHashMap<TrayDelayState> = StringHashMap::new();
        let mut i: usize = 0;
        assert(states@ =~= known_states(self@.cache, group@, all.take(0)));
        while i < names.len()
            invariant
                i <= names@.len(),
                all == text::texts(names@),
                states@ == known_states(self@.cache, group@, all.take(i as int)),
            decreases names@.len() - i,
        {
            assert(all.take(i + 1) =~= all.take(i as int).push(names@[i as int]@));
            proof {
                lemma_contains_push(all.take(i as int), names@[i as int]@);
            }
            let key = Self::cache_key(group, names[i].as_str());
            if let Some(state) = self.cache.get(key.as_str()) {
                states.insert(names[i].clone(), *state);
            }
            assert(states@ =~= known_states(self@.cache, group@, all.take(i + 1)));
            i = i + 1;
        }
        assert(all.take(i as int) =~= all);
        states
    }

    /// The nodes to test in `group`, the page to fetch and the timeout.
    pub fn collect_group_test_input(
        group: &str,
        proxies: &Proxies,
        default_latency_test: Option<&str>,
        default_latency_timeout: Option<i16>,
    ) -> (input: GroupTestInput)
        ensures
            input@ == test_input(
                group@,
                proxies@,
                config::trimmed_setting(config::optional_chars(default_latency_test)),
                default_latency_timeout,
            ),
    {
        let names = match proxies.get(group) {
            Some(proxy) => match &proxy.all {
                Some(all) => text::clone_texts(all),
                None => Vec::new(),
            },
            None => Vec::new(),
        };
        assert(text::texts(names@) =~= group_members(proxies@, group@));
        GroupTestInput {
            names,
            test_url: config::resolve_latency_test_url(default_latency_test),
            timeout: config::resolve_latency_timeout_from_config(default_latency_timeout),
        }
    }

    /// The state that a finished measurement leads to; `None` stands for a failed one.
    pub fn state_from_measurement(delay: Option<u32>, timeout: u32) -> (state: TrayDelayState)
        ensures
            state == outcome(delay, timeout),
    {
        match delay {
            Some(delay) => TrayDelayFormatter::state_from_delay(delay, timeout),
            None => TrayDelayState::Error,
        }
    }

    /// The cache key of a node in a group.
    pub fn cache_key(group: &str, proxy: &str) -> (key: String)
        ensures
            key@ == key_of(group@, proxy@),
    {
        let mut key = group.to_owned();
        key.append("::");
        key.append(proxy);
        proof {
            reveal_strlit("::");
            assert("::"@ =~= seq![':', ':']);
        }
        key
    }
}

/// Nodes of one group share a cache key only where they share their name.
pub proof fn keys_in_a_group_are_distinct(group: Seq<char>, proxy: Seq<char>, other: Seq<char>)
    ensures
        key_of(group, proxy) == key_of(group, other) ==> proxy == other,
{
    let skip = group.len() as int + 2;
    assert(key_of(group, proxy).skip(skip) =~= proxy);
    assert(key_of(group, other).skip(skip) =~= other);
}

/// A recorded state is the one shown, whatever the history and the timeout, and nodes with another
/// cache key are shown as before.
pub proof fn recorded_state_is_shown(
    cache: Map<Seq<char>, TrayDelayState>,
    group: Seq<char>,
    proxy: Seq<char>,
    state: TrayDelayState,
    latest_delay: Option<u32>,
    timeout: u32,
)
    ensures
        shown_state(
            cache.insert(key_of(group, proxy), state),
            group,
            proxy,
            latest_delay,
            timeout,
        ) == state,
        forall|other_group: Seq<char>, other: Seq<char>, delay: Option<u32>|
            key_of(other_group, other) != key_of(group, proxy) ==> #[trigger] shown_state(
                cache.insert(key_of(group, proxy), state),
                other_group,
                other,
                delay,
                timeout,
            ) == shown_state(cache, other_group, other, delay, timeout),
{
}

/// Whether `key` is the cache key of one of the given nodes of `group`.
pub open spec fn is_key_of_any(key: Seq<char>, group: Seq<char>, names: Seq<Seq<char>>) -> bool {
    exists|i: int| 0 <= i < names.len() && key == key_of(group, #[trigger] names[i])
}

/// Marking a group puts exactly the given nodes under test: their keys hold the testing state, and
/// every other key is as before.
pub proof fn marked_nodes_are_testing(
    cache: Map<Seq<char>, TrayDelayState>,
    group: Seq<char>,
    names: Seq<Seq<char>>,
    key: Seq<char>,
)
    ensures
        is_key_of_any(key, group, names) ==> {
            &&& marked_testing(cache, group, names).contains_key(key)
            &&& marked_testing(cache, group, names)[key] == TrayDelayState::Testing
        },
        !is_key_of_any(key, group, names) ==> {
            &&& marked_testing(cache, group, names).contains_key(key) == cache.contains_key(key)
            &&& marked_testing(cache, group, names)[key] == cache[key]
        },
    decreases names.len(),
{
    if names.len() > 0 {
        let rest = names.drop_last();
        let last = names.len() - 1;
        marked_nodes_are_testing(cache, group, rest, key);
        assert(is_key_of_any(key, group, names) <==> is_key_of_any(key, group, rest) || key
            == key_of(group, names[last])) by {
            if is_key_of_any(key, group, names) {
                let i = choose|i: int| 0 <= i < names.len() && key == key_of(group, #[trigger] names[i]);
                if i < last {
                    assert(rest[i] == names[i]);
                }
            }
            if is_key_of_any(key, group, rest) {
                let i = choose|i: int| 0 <= i < rest.len() && key == key_of(group, #[trigger] rest[i]);
                assert(names[i] == rest[i]);
            }
        }
    }
}

/// A list holds what it held before a push, and what was pushed.
proof fn lemma_contains_push(names: Seq<Seq<char>>, name: Seq<char>)
    ensures
        forall|other: Seq<char>| #[trigger]
            names.push(name).contains(other) <==> names.contains(other) || other == name,
{
    assert forall|other: Seq<char>| #[trigger]
        names.push(name).contains(other) <==> names.contains(other) || other == name by {
        if names.contains(other) {
            let i = choose|i: int| 0 <= i < names.len() && names[i] == other;
            assert(names.push(name)[i] == other);
        }
        assert(names.push(name)[names.len() as int] == name);
    }
}

/// The cache key of a node is the name of its group, two colons and its own name. Nodes of groups
/// without a colon in their names never share a key.
pub proof fn keys_spell_group_and_node(
    group: Seq<char>,
    proxy: Seq<char>,
    other_group: Seq<char>,
    other: Seq<char>,
)
    ensures
        key_of(group, proxy) == group + "::"@ + proxy,
        !group.contains(':') && !other_group.contains(':') && key_of(group, proxy) == key_of(
            other_group,
            other,
        ) ==> group == other_group && proxy == other,
{
    reveal_strlit("::");
    assert(key_of(group, proxy) =~= group + "::"@ + proxy);
    assert(key_of(group, proxy) =~= group + seq![':'] + (seq![':'] + proxy));
    assert(key_of(other_group, other) =~= other_group + seq![':'] + (seq![':'] + other));
    if !group.contains(':') && !other_group.contains(':') && key_of(group, proxy) == key_of(
        other_group,
        other,
    ) {
        text::first_split_parts(group, ':', seq![':'] + proxy);
        text::first_split_parts(other_group, ':', seq![':'] + other);
        assert((seq![':'] + proxy).skip(1) =~= proxy);
        assert((seq![':'] + other).skip(1) =~= other);
    }
}

/// A cached state is shown, whatever the history of the node and the timeout are.
pub proof fn cached_state_is_shown_first(
    cache: Map<Seq<char>, TrayDelayState>,
    group: Seq<char>,
    name: Seq<char>,
    proxy: Option<&Proxy>,
    timeout: u32,
)
    requires
        cache.contains_key(group + "::"@ + name),
    ensures
        shown_state(cache, group, name, latest_delay_of(proxy), timeout) == cache[group + "::"@
            + name],
{
    keys_spell_group_and_node(group, name, group, name);
}

/// Without a cached state, the measurement that was appended last is shown, whatever the history was
/// before it: as a value below the timeout and up to a hundred seconds, as an error beyond these,
/// and as a timeout otherwise. Without any measurement the state is unknown.
pub proof fn appended_measurement_is_shown(
    cache: Map<Seq<char>, TrayDelayState>,
    group: Seq<char>,
    name: Seq<char>,
    proxy: Proxy,
    earlier: Seq<DelayHistory>,
    delay: u32,
    timeout: u32,
)
    requires
        !cache.contains_key(group + "::"@ + name),
    ensures
        proxy.history@ == earlier.push(DelayHistory { delay }) ==> {
            let shown = shown_state(cache, group, name, latest_delay_of(Some(&proxy)), timeout);
            &&& 0 < delay < timeout && delay <= 100_000 ==> shown == TrayDelayState::Value(delay)
            &&& delay == 0 || timeout <= delay <= 100_000 ==> shown == TrayDelayState::Timeout
            &&& delay > 100_000 ==> shown == TrayDelayState::Error
        },
        proxy.history@.len() == 0 ==> shown_state(
            cache,
            group,
            name,
            latest_delay_of(Some(&proxy)),
            timeout,
        ) == TrayDelayState::Unknown,
        shown_state(cache, group, name, latest_delay_of(None), timeout) == TrayDelayState::Unknown,
{
    keys_spell_group_and_node(group, name, group, name);
}

/// The outcome of a measurement in numbers; a failed one is an error.
pub proof fn outcomes_in_numbers(delay: u32, timeout: u32)
    ensures
        0 < delay < timeout && delay <= 100_000 ==> outcome(Some(delay), timeout)
            == TrayDelayState::Value(delay),
        delay == 0 || timeout <= delay <= 100_000 ==> outcome(Some(delay), timeout)
            == TrayDelayState::Timeout,
        delay > 100_000 ==> outcome(Some(delay), timeout) == TrayDelayState::Error,
        outcome(None, timeout) == TrayDelayState::Error,
{
}

/// After marking, each of the given nodes of the group is shown as under test, and the entry of any
/// other key is as it was.
pub proof fn marking_touches_the_given_nodes(
    cache: Map<Seq<char>, TrayDelayState>,
    group: Seq<char>,
    names: Seq<Seq<char>>,
    i: int,
    key: Seq<char>,
)
    ensures
        0 <= i < names.len() ==> {
            &&& marked_testing(cache, group, names).contains_key(group + "::"@ + names[i])
            &&& marked_testing(cache, group, names)[group + "::"@ + names[i]]
                == TrayDelayState::Testing
        },
        (forall|j: int| 0 <= j < names.len() ==> key != group + "::"@ + #[trigger] names[j]) ==> {
            &&& marked_testing(cache, group, names).contains_key(key) == cache.contains_key(key)
            &&& marked_testing(cache, group, names)[key] == cache[key]
        },
{
    if 0 <= i < names.len() {
        keys_spell_group_and_node(group, names[i], group, names[i]);
        assert(is_key_of_any(key_of(group, names[i]), group, names));
        marked_nodes_are_testing(cache, group, names, key_of(group, names[i]));
    }
    if forall|j: int| 0 <= j < names.len() ==> key != group + "::"@ + #[trigger] names[j] {
        if is_key_of_any(key, group, names) {
            let j = choose|j: int| 0 <= j < names.len() && key == key_of(group, #[trigger] names[j]);
            keys_spell_group_and_node(group, names[j], group, names[j]);
        }
        marked_nodes_are_testing(cache, group, names, key);
    }
}

/// A snapshot holds a name exactly where it is one of the given ones and the cache holds an entry
/// for it, and then with the state of that entry.
pub proof fn snapshots_hold_the_cached_states(
    cache: Map<Seq<char>, TrayDelayState>,
    group: Seq<char>,
    names: Seq<Seq<char>>,
    name: Seq<char>,
)
    ensures
        known_states(cache, group, names).contains_key(name) <==> (exists|i: int|
            0 <= i < names.len() && #[trigger] names[i] == name) && cache.contains_key(
            group + "::"@ + name,
        ),
        known_states(cache, group, names).contains_key(name) ==> known_states(cache, group, names)[name]
            == cache[group + "::"@ + name],
{
    keys_spell_group_and_node(group, name, group, name);
}

/// A test of a group measures the members that the group lists, all of them in their order, and
/// none where there is no such group or it has no list. Its timeout is a positive setting or ten
/// seconds.
pub proof fn tests_measure_the_listed_members(
    group: Seq<char>,
    proxies: Map<Seq<char>, Proxy>,
    url: Option<Seq<char>>,
    timeout: Option<i16>,
)
    ensures
        ({
            let input = test_input(group, proxies, url, timeout);
            &&& proxies.contains_key(group) && proxies[group].all is Some ==> {
                let all = proxies[group].all->0@;
                &&& input.names.len() == all.len()
                &&& forall|i: int| 0 <= i < all.len() ==> #[trigger] input.names[i] == all[i]@
            }
            &&& !proxies.contains_key(group) || proxies[group].all is None ==> input.names.len()
                == 0
            &&& (timeout matches Some(timeout) && timeout > 0) ==> input.timeout == timeout->0
            &&& !(timeout matches Some(timeout) && timeout > 0) ==> input.timeout == 10_000
            &&& (url matches Some(url) && url.len() > 0) ==> input.test_url == url->0
            &&& !(url matches Some(url) && url.len() > 0) ==> input.test_url
                == "http://cp.cloudflare.com/generate_204"@
        }),
{
}

/// The view of a test input keeps its names at their places, its page and its timeout.
pub proof fn input_view_keeps_its_parts(input: GroupTestInput)
    ensures
        input@.names.len() == input.names@.len(),
        forall|i: int| 0 <= i < input.names@.len() ==> #[trigger] input@.names[i] == input.names@[i]@,
        input@.test_url == input.test_url@,
        input@.timeout == input.timeout,
{
}

} // verus!
