//! What the proxy part of the tray menu shows: one submenu per group, in the configured order.
use crate::delay;
use crate::delay::{Labels, TrayDelayFormatter, TrayDelayState, TrayLabels};
use crate::latency;
use crate::latency::TrayProxyLatencyController;
use crate::menu_id;
use crate::menu_id::TrayProxyMenuId;
use crate::proxies::{Proxies, Proxy};
use crate::text;
use vstd::hash_map::StringHashMap;
use vstd::prelude::*;

verus! {

/// The mode in which only the global group is shown.
pub const GLOBAL_MODE: &'static str = "global";

/// The group that is shown in that mode, and in no other.
pub const GLOBAL_GROUP: &'static str = "GLOBAL";

/// The entry that tests a group.
#[derive(Debug, Clone, PartialEq, Eq)]
pub struct TrayProxyTestEntry {
    pub id: String,
    pub title: String,
}

/// The entry of a node.
#[derive(Debug, Clone, PartialEq, Eq)]
pub struct TrayProxyNodeEntry {
    pub id: String,
    pub title: String,
    /// Whether the node is the selected one.
    pub checked: bool,
}

/// The submenu of a group. The delay test comes first, then the nodes.
#[derive(Debug, Clone, PartialEq, Eq)]
pub struct TrayProxySubmenu {
    pub id: String,
    pub title: String,
    pub delay_test: TrayProxyTestEntry,
    pub nodes: Vec<TrayProxyNodeEntry>,
}

/// The entry of a node, with its texts as character sequences.
pub struct NodeEntry {
    pub id: Seq<char>,
    pub title: Seq<char>,
    pub checked: bool,
}

/// The submenu of a group, with its texts as character sequences.
pub struct GroupMenu {
    pub id: Seq<char>,
    pub title: Seq<char>,
    pub delay_test_id: Seq<char>,
    pub delay_test_title: Seq<char>,
    pub nodes: Seq<NodeEntry>,
}

impl View for TrayProxyNodeEntry {
    type V = NodeEntry;

    open spec fn view(&self) -> NodeEntry {
        NodeEntry { id: self.id@, title: self.title@, checked: self.checked }
    }
}

/// The entries of a list, with their texts as character sequences.
pub open spec fn node_entries(list: Seq<TrayProxyNodeEntry>) -> Seq<NodeEntry> {
    list.map_values(|entry: TrayProxyNodeEntry| entry@)
}

impl View for TrayProxySubmenu {
    type V = GroupMenu;

    open spec fn view(&self) -> GroupMenu {
        GroupMenu {
            id: self.id@,
            title: self.title@,
            delay_test_id: self.delay_test.id@,
            delay_test_title: self.delay_test.title@,
            nodes: node_entries(self.nodes@),
        }
    }
}

/// Everything that the entries of a menu depend on.
pub struct MenuSource {
    pub proxies: Map<Seq<char>, Proxy>,
    pub cache: Map<Seq<char>, TrayDelayState>,
    pub timeout: u32,
    pub labels: Labels,
}

/// The latest delay in the history of a node; none where the node is not listed.
pub open spec fn listed_delay(proxies: Map<Seq<char>, Proxy>, name: Seq<char>) -> Option<u32> {
    if proxies.contains_key(name) {
        proxies[name].latest_delay()
    } else {
        None
    }
}

/// The entry of a node of `group`, checked where it is the selected one.
pub open spec fn node_entry(
    source: MenuSource,
    group: Seq<char>,
    selected: Seq<char>,
    name: Seq<char>,
) -> NodeEntry {
    let state = latency::shown_state(
        source.cache,
        group,
        name,
        listed_delay(source.proxies, name),
        source.timeout,
    );
    NodeEntry {
        id: menu_id::node_id(group, name),
        title: delay::title_text(name, delay::state_text(state, source.labels)),
        checked: name == selected,
    }
}

/// Whether a group is shown: in the global mode just the global group, in any other mode all
/// groups but that one, and never a hidden one or one without a member list.
pub open spec fn shows_group(mode: Seq<char>, name: Seq<char>, proxy: Proxy) -> bool {
    &&& (mode == GLOBAL_MODE@) == (name == GLOBAL_GROUP@)
    &&& proxy.hidden != Some(true)
    &&& proxy.all is Some
}

/// The submenu of a group, if it is shown and has members.
pub open spec fn group_menu(
    source: MenuSource,
    mode: Seq<char>,
    name: Seq<char>,
    proxy: Proxy,
) -> Option<GroupMenu> {
    let members = proxy.members();
    if shows_group(mode, name, proxy) && members.len() > 0 {
        Some(
            GroupMenu {
                id: menu_id::group_id(name),
                title: name,
                delay_test_id: menu_id::delay_test_id(name),
                delay_test_title: source.labels.delay_test,
                nodes: members.map_values(
                    |member: Seq<char>| node_entry(source, name, proxy.selected(), member),
                ),
            },
        )
    } else {
        None
    }
}

/// The submenus of the given proxies that have one, with their names, in the given order.
pub open spec fn listed_menus(source: MenuSource, mode: Seq<char>, names: Seq<Seq<char>>) -> Seq<
    (Seq<char>, GroupMenu),
>
    decreases names.len(),
{
    if names.len() == 0 {
        seq![]
    } else {
        let name = names.last();
        let before = listed_menus(source, mode, names.drop_last());
        match group_menu(source, mode, name, source.proxies[name]) {
            Some(menu) => before.push((name, menu)),
            None => before,
        }
    }
}

/// Whether one group has to come before another: those with a configured place come first, by that
/// place, the others keep the order of their indices.
pub open spec fn precedes(
    order: Map<Seq<char>, usize>,
    name: Seq<char>,
    index: int,
    other: Seq<char>,
    other_index: int,
) -> bool {
    if order.contains_key(name) && order.contains_key(other) {
        order[name] < order[other]
    } else if order.contains_key(name) || order.contains_key(other) {
        order.contains_key(name)
    } else {
        index < other_index
    }
}

/// Each number from zero up to, but without, `count`, once.
pub open spec fn is_permutation(places: Seq<int>, count: nat) -> bool {
    &&& places.len() == count
    &&& places.no_duplicates()
    &&& forall|i: int| 0 <= i < count ==> 0 <= #[trigger] places[i] < count
}

/// Whether the group at place `at` may stand before the one at place `later`: it has to, or
/// neither has to come first and it did so before.
pub open spec fn stays_before<T>(
    order: Map<Seq<char>, usize>,
    groups: Seq<(String, usize, T)>,
    at: int,
    later: int,
) -> bool {
    let (a, b) = (groups[at], groups[later]);
    ||| precedes(order, a.0@, a.1 as int, b.0@, b.1 as int)
    ||| !precedes(order, b.0@, b.1 as int, a.0@, a.1 as int) && at < later
}

/// Whether `places` tells for each group of the sorted list where it stood before.
pub open spec fn is_stable_sort<T>(
    order: Map<Seq<char>, usize>,
    before: Seq<(String, usize, T)>,
    after: Seq<(String, usize, T)>,
    places: Seq<int>,
) -> bool {
    &&& is_permutation(places, before.len())
    &&& after.len() == before.len()
    &&& forall|i: int| 0 <= i < after.len() ==> #[trigger] after[i] == before[places[i]]
    &&& forall|i: int, j: int|
        0 <= i < j < after.len() ==> stays_before(
            order,
            before,
            #[trigger] places[i],
            #[trigger] places[j],
        )
}

/// The configured places of groups in the menu.
pub struct TrayProxyGroupOrder {
    places: StringHashMap<usize>,
}

impl View for TrayProxyGroupOrder {
    type V = Map<Seq<char>, usize>;

    closed spec fn view(&self) -> Map<Seq<char>, usize> {
        self.places@
    }
}

impl TrayProxyGroupOrder {
    /// No configured places.
    pub fn new() -> (order: Self)
        ensures
            order@ == Map::<Seq<char>, usize>::empty(),
    {
        TrayProxyGroupOrder { places: StringHashMap::new() }
    }

    /// Gives a group its place.
    pub fn insert(&mut self, group: String, place: usize)
        ensures
            final(self)@ == old(self)@.insert(group@, place),
    {
        self.places.insert(group, place);
    }

    /// The place of a group.
    pub fn get(&self, group: &str) -> (place: Option<usize>)
        ensures
            match place {
                Some(place) => self@.contains_key(group@) && place == self@[group@],
                None => !self@.contains_key(group@),
            },
    {
        match self.places.get(group) {
            Some(place) => Some(*place),
            None => None,
        }
    }
}

/// Builder of the proxy menu.
pub struct TrayProxyMenuBuilder;

impl TrayProxyMenuBuilder {
    /// Whether a group is shown in a mode.
    pub fn should_show_group(proxy_mode: &str, group_name: &str, group_data: &Proxy) -> (shown: bool)
        ensures
            shown == shows_group(proxy_mode@, group_name@, *group_data),
    {
        let is_global = text::same_text(group_name, GLOBAL_GROUP);
        let fits_mode = if text::same_text(proxy_mode, GLOBAL_MODE) {
            is_global
        } else {
            !is_global
        };
        let hidden = match group_data.hidden {
            Some(hidden) => hidden,
            None => false,
        };
        fits_mode && !hidden && group_data.all.is_some()
    }

    /// Whether one group has to come before another.
    fn goes_first(
        order: &TrayProxyGroupOrder,
        name: &str,
        index: usize,
        other: &str,
        other_index: usize,
    ) -> (first: bool)
        ensures
            first == precedes(order@, name@, index as int, other@, other_index as int),
    {
        match (order.get(name), order.get(other)) {
            (Some(place), Some(other_place)) => place < other_place,
            (Some(_), None) => true,
            (None, Some(_)) => false,
            (None, None) => index < other_index,
        }
    }

    /// Brings named groups with their indices into the configured order, stably. Without a
    /// configured order they stay as they are.
    pub fn sort_submenus<T>(
        submenus: &mut Vec<(String, usize, T)>,
        proxy_group_order_map: Option<&TrayProxyGroupOrder>,
    )
        ensures
            match proxy_group_order_map {
                Some(order) => exists|places: Seq<int>| #[trigger]
                    is_stable_sort(order@, old(submenus)@, final(submenus)@, places),
                None => final(submenus)@ == old(submenus)@,
            },
    {
        if let Some(order) = proxy_group_order_map {
            let ghost before = submenus@;
            let ghost mut places: Seq<int> = Seq::new(before.len(), |i: int| i);
            let mut i: usize = 0;
            while i < submenus.len()
                invariant
                    before == old(submenus)@,
                    i <= submenus@.len() == before.len(),
                    is_permutation(places, before.len()),
                    forall|p: int| 0 <= p < before.len() ==> #[trigger] submenus@[p] == before[places[p]],
                    forall|p: int| 0 <= p < i ==> 0 <= #[trigger] places[p] < i,
                    forall|p: int| i <= p < before.len() ==> #[trigger] places[p] == p,
                    forall|p: int, q: int|
                        0 <= p < q < i ==> stays_before(
                            order@,
                            before,
                            #[trigger] places[p],
                            #[trigger] places[q],
                        ),
                decreases submenus@.len() - i,
            {
                let mut k: usize = i;
                while k > 0 && Self::goes_first(
                    order,
                    submenus[i].0.as_str(),
                    submenus[i].1,
                    submenus[k - 1].0.as_str(),
                    submenus[k - 1].1,
                )
                    invariant
                        k <= i < submenus@.len() == before.len(),
                        is_permutation(places, before.len()),
                        forall|p: int|
                            0 <= p < before.len() ==> #[trigger] submenus@[p] == before[places[p]],
                        places[i as int] == i,
                        forall|p: int|
                            k <= p < i ==> precedes(
                                order@,
                                before[i as int].0@,
                                before[i as int].1 as int,
                                before[#[trigger] places[p]].0@,
                                before[places[p]].1 as int,
                            ),
                    ensures
                        k <= i < submenus@.len(),
                        k > 0 ==> !precedes(
                            order@,
                            before[i as int].0@,
                            before[i as int].1 as int,
                            before[places[k - 1]].0@,
                            before[places[k - 1]].1 as int,
                        ),
                    decreases k,
                {
                    k = k - 1;
                }
                let ghost previous = places;
                let moved = submenus.remove(i);
                submenus.insert(k, moved);
                proof {
                    places = previous.remove(i as int).insert(k as int, i as int);
                    assert forall|p: int| 0 <= p < before.len() implies #[trigger] submenus@[p]
                        == before[places[p]] by {}
                    lemma_moved(order@, before, previous, i as int, k as int);
                }
                i = i + 1;
            }
            assert(is_stable_sort(order@, before, submenus@, places));
        }
    }

    /// The entries of the given nodes of a group.
    pub fn create_node_items(
        group_name: &str,
        now_proxy: &str,
        all_proxies: &[String],
        proxy_nodes_data: &Proxies,
        latency_timeout: u32,
        latency: &TrayProxyLatencyController,
        labels: &TrayLabels,
    ) -> (items: Vec<TrayProxyNodeEntry>)
        ensures
            node_entries(items@) == text::texts(all_proxies@).map_values(
                |name: Seq<char>|
                    node_entry(
                        menu_source(proxy_nodes_data, latency_timeout, latency, labels),
                        group_name@,
                        now_proxy@,
                        name,
                    ),
            ),
    {
        let ghost source = menu_source(proxy_nodes_data, latency_timeout, latency, labels);
        let mut items: Vec<TrayProxyNodeEntry> = Vec::new();
        let mut i: usize = 0;
        while i < all_proxies.len()
            invariant
                i <= all_proxies@.len(),
                items@.len() == i,
                source == menu_source(proxy_nodes_data, latency_timeout, latency, labels),
                forall|j: int|
                    0 <= j < i ==> (#[trigger] items@[j])@ == node_entry(
                        source,
                        group_name@,
                        now_proxy@,
                        all_proxies@[j]@,
                    ),
            decreases all_proxies@.len() - i,
        {
            let name = all_proxies[i].as_str();
            let state = latency.state_for_proxy(
                group_name,
                name,
                proxy_nodes_data.get(name),
                latency_timeout,
            );
            let display = TrayDelayFormatter::display(state, labels);
            let entry = TrayProxyNodeEntry {
                id: TrayProxyMenuId::node(group_name, name),
                title: TrayDelayFormatter::node_title(name, &display).title,
                checked: text::same_text(name, now_proxy),
            };
            assert(entry@ == node_entry(source, group_name@, now_proxy@, name@));
            items.push(entry);
            i = i + 1;
        }
        assert(node_entries(items@) =~= text::texts(all_proxies@).map_values(
            |name: Seq<char>| node_entry(source, group_name@, now_proxy@, name),
        ));
        items
    }

    /// The submenu of a group. There is none for a group that is not shown or has no nodes.
    pub fn create_group_submenu(
        proxy_mode: &str,
        group_name: &str,
        group_data: &Proxy,
        proxy_nodes_data: &Proxies,
        latency_timeout: u32,
        latency: &TrayProxyLatencyController,
        labels: &TrayLabels,
    ) -> (submenu: Option<TrayProxySubmenu>)
        ensures
            match submenu {
                Some(submenu) => Some(submenu@),
                None => None,
            } == group_menu(
                menu_source(proxy_nodes_data, latency_timeout, latency, labels),
                proxy_mode@,
                group_name@,
                *group_data,
            ),
    {
        if !Self::should_show_group(proxy_mode, group_name, group_data) {
            return None;
        }
        let all_proxies = match &group_data.all {
            Some(all) => all,
            None => return None,
        };
        let now_proxy = match &group_data.now {
            Some(now) => now.as_str(),
            None => "",
        };
        proof {
            reveal_strlit("");
            assert(now_proxy@ =~= group_data.selected());
        }
        let nodes = Self::create_node_items(
            group_name,
            now_proxy,
            all_proxies.as_slice(),
            proxy_nodes_data,
            latency_timeout,
            latency,
            labels,
        );
        if nodes.len() == 0 {
            assert(node_entries(nodes@).len() == 0);
            return None;
        }
        assert(node_entries(nodes@).len() > 0);
        Some(
            TrayProxySubmenu {
                id: TrayProxyMenuId::group(group_name),
                title: group_name.to_owned(),
                delay_test: TrayProxyTestEntry {
                    id: TrayProxyMenuId::delay_test(group_name),
                    title: labels.delay_test.clone(),
                },
                nodes,
            },
        )
    }

    /// The submenus of all groups that are shown, in the configured order.
    pub fn create_proxy_submenus(
        proxy_mode: &str,
        proxy_group_order_map: Option<&TrayProxyGroupOrder>,
        proxy_nodes_data: Option<&Proxies>,
        latency_timeout: u32,
        latency: &TrayProxyLatencyController,
        labels: &TrayLabels,
    ) -> (submenus: Vec<TrayProxySubmenu>)
        requires
            proxy_nodes_data matches Some(proxies) ==> proxies.wf(),
        ensures
            match proxy_nodes_data {
                Some(proxies) => exists|places: Seq<int>| #[trigger]
                    is_menu_order(
                        order_of(proxy_group_order_map),
                        listed_menus(
                            menu_source(proxies, latency_timeout, latency, labels),
                            proxy_mode@,
                            proxies.order(),
                        ),
                        menus(submenus@),
                        places,
                    ),
                None => submenus@.len() == 0,
            },
    {
        let proxies = match proxy_nodes_data {
            Some(proxies) => proxies,
            None => return Vec::new(),
        };
        let ghost source = menu_source(proxies, latency_timeout, latency, labels);
        let ghost listed = listed_menus(source, proxy_mode@, proxies.order());
        let mut groups = Self::list_groups(proxy_mode, proxies, latency_timeout, latency, labels);
        let ghost before = groups@;
        Self::sort_submenus(&mut groups, proxy_group_order_map);
        let ghost after = groups@;
        let ghost places: Seq<int> = match proxy_group_order_map {
            Some(order) => choose|places: Seq<int>| #[trigger]
                is_stable_sort(order@, before, after, places),
            None => Seq::new(before.len(), |i: int| i),
        };
        let mut submenus: Vec<TrayProxySubmenu> = Vec::new();
        for group in it: groups.into_iter()
            invariant
                it.seq() == after,
                submenus@.len() == it.index(),
                forall|j: int| 0 <= j < submenus@.len() ==> #[trigger] submenus@[j] == after[j].2,
        {
            let (_, _, submenu) = group;
            submenus.push(submenu);
        }
        assert(is_menu_order(order_of(proxy_group_order_map), listed, menus(submenus@), places)) by {
            assert forall|i: int| 0 <= i < after.len() implies #[trigger] menus(submenus@)[i]
                == listed[places[i]].1 by {
                assert(submenus@[i] == after[i].2);
                assert(after[i] == before[places[i]]);
                assert(before[places[i]].2@ == listed[places[i]].1);
            }
            if let Some(order) = proxy_group_order_map {
                assert forall|i: int, j: int| 0 <= i < j < places.len() implies comes_first(
                    order@,
                    listed,
                    #[trigger] places[i],
                    #[trigger] places[j],
                ) by {
                    assert(stays_before(order@, before, places[i], places[j]));
                    assert(before[places[i]].0@ == listed[places[i]].0);
                    assert(before[places[j]].0@ == listed[places[j]].0);
                }
            }
        }
        submenus
    }

    /// The submenus of all groups that are shown, with name and index, in the reported order.
    fn list_groups(
        proxy_mode: &str,
        proxies: &Proxies,
        latency_timeout: u32,
        latency: &TrayProxyLatencyController,
        labels: &TrayLabels,
    ) -> (groups: Vec<(String, usize, TrayProxySubmenu)>)
        requires
            proxies.wf(),
        ensures
            ({
                let listed = listed_menus(
                    menu_source(proxies, latency_timeout, latency, labels),
                    proxy_mode@,
                    proxies.order(),
                );
                &&& groups@.len() == listed.len()
                &&& forall|i: int|
                    0 <= i < listed.len() ==> {
                        &&& (#[trigger] groups@[i]).0@ == listed[i].0
                        &&& groups@[i].1 == i
                        &&& groups@[i].2@ == listed[i].1
                    }
            }),
    {
        let ghost source = menu_source(proxies, latency_timeout, latency, labels);
        let ghost order = proxies.order();
        let mut groups: Vec<(String, usize, TrayProxySubmenu)> = Vec::new();
        let mut i: usize = 0;
        while i < proxies.len()
            invariant
                i <= order.len(),
                proxies.wf(),
                order == proxies.order(),
                source == menu_source(proxies, latency_timeout, latency, labels),
                groups@.len() == listed_menus(source, proxy_mode@, order.take(i as int)).len(),
                forall|j: int|
                    0 <= j < groups@.len() ==> {
                        let listed = listed_menus(source, proxy_mode@, order.take(i as int));
                        &&& (#[trigger] groups@[j]).0@ == listed[j].0
                        &&& groups@[j].1 == j
                        &&& groups@[j].2@ == listed[j].1
                    },
            decreases order.len() - i,
        {
            assert(order.take(i + 1).drop_last() =~= order.take(i as int));
            assert(order.contains(order[i as int]));
            let name = proxies.name(i);
            if let Some(data) = proxies.get(name.as_str()) {
                if let Some(submenu) = Self::create_group_submenu(
                    proxy_mode,
                    name.as_str(),
                    data,
                    proxies,
                    latency_timeout,
                    latency,
                    labels,
                ) {
                    let insertion_index = groups.len();
                    groups.push((name.clone(), insertion_index, submenu));
                }
            }
            i = i + 1;
        }
        assert(order.take(i as int) =~= order);
        groups
    }

    /// The identifiers of the entries of a group submenu, from the first to the last.
    pub fn group_item_ids_for_test(group_name: &str, all_proxies: &[String]) -> (ids: Vec<String>)
        ensures
            text::texts(ids@) == item_ids(group_name@, text::texts(all_proxies@)),
    {
        let mut ids: Vec<String> = Vec::new();
        ids.push(TrayProxyMenuId::delay_test(group_name));
        let mut i: usize = 0;
        while i < all_proxies.len()
            invariant
                i <= all_proxies@.len(),
                ids@.len() == i + 1,
                ids@[0]@ == menu_id::delay_test_id(group_name@),
                forall|j: int|
                    0 <= j < i ==> (#[trigger] ids@[j + 1])@ == menu_id::node_id(
                        group_name@,
                        all_proxies@[j]@,
                    ),
            decreases all_proxies@.len() - i,
        {
            ids.push(TrayProxyMenuId::node(group_name, all_proxies[i].as_str()));
            i = i + 1;
        }
        assert forall|k: int| 0 <= k < ids@.len() implies #[trigger] text::texts(ids@)[k]
            == item_ids(group_name@, text::texts(all_proxies@))[k] by {
            if k > 0 {
                assert(ids@[(k - 1) + 1]@ == menu_id::node_id(group_name@, all_proxies@[k - 1]@));
            }
        }
        assert(text::texts(ids@) =~= item_ids(group_name@, text::texts(all_proxies@)));
        ids
    }

    /// Puts the native entries of a submenu together, the delay test first. Node entries that
    /// could not be made are left out. There is no submenu without its delay test or without any
    /// node.
    pub fn created_items<T>(delay_test: Option<T>, nodes: Vec<Option<T>>) -> (items: Option<Vec<T>>)
        ensures
            match items {
                Some(items) => {
                    &&& delay_test is Some
                    &&& made(nodes@).len() > 0
                    &&& items@ == seq![delay_test->0] + made(nodes@)
                },
                None => delay_test is None || made(nodes@).len() == 0,
            },
    {
        let first = match delay_test {
            Some(first) => first,
            None => return None,
        };
        let ghost all = nodes@;
        let mut items: Vec<T> = Vec::new();
        items.push(first);
        assert(items@ =~= seq![first] + made(all.take(0)));
        for node in it: nodes.into_iter()
            invariant
                it.seq() == all,
                items@ == seq![first] + made(all.take(it.index())),
        {
            assert(all.take(it.index() + 1).drop_last() =~= all.take(it.index()));
            if let Some(node) = node {
                items.push(node);
                assert(items@ =~= seq![first] + made(all.take(it.index() + 1)));
            }
        }
        assert(all.take(all.len() as int) =~= all);
        if items.len() == 1 {
            return None;
        }
        Some(items)
    }
}

/// What the entries of a menu depend on, for the given arguments.
pub open spec fn menu_source(
    proxies: &Proxies,
    timeout: u32,
    latency: &TrayProxyLatencyController,
    labels: &TrayLabels,
) -> MenuSource {
    MenuSource { proxies: proxies@, cache: latency@.cache, timeout, labels: labels@ }
}

/// The submenus of a list, with their texts as character sequences.
pub open spec fn menus(list: Seq<TrayProxySubmenu>) -> Seq<GroupMenu> {
    list.map_values(|submenu: TrayProxySubmenu| submenu@)
}

/// The configured places of groups, if there are any.
pub open spec fn order_of(order: Option<&TrayProxyGroupOrder>) -> Option<Map<Seq<char>, usize>> {
    match order {
        Some(order) => Some(order@),
        None => None,
    }
}

/// Whether the listed group at `at` comes before the one at `later` in the menu: by the configured
/// places, and in the listed order where these do not decide.
pub open spec fn comes_first(
    order: Map<Seq<char>, usize>,
    listed: Seq<(Seq<char>, GroupMenu)>,
    at: int,
    later: int,
) -> bool {
    let (a, b) = (listed[at].0, listed[later].0);
    precedes(order, a, at, b, later) || (!precedes(order, b, later, a, at) && at < later)
}

/// Whether a menu shows the listed submenus in the configured order, where `places` tells for each
/// shown submenu which of the listed ones it is.
pub open spec fn is_menu_order(
    order: Option<Map<Seq<char>, usize>>,
    listed: Seq<(Seq<char>, GroupMenu)>,
    shown: Seq<GroupMenu>,
    places: Seq<int>,
) -> bool {
    &&& is_permutation(places, listed.len())
    &&& shown.len() == listed.len()
    &&& forall|i: int| 0 <= i < shown.len() ==> #[trigger] shown[i] == listed[places[i]].1
    &&& match order {
        Some(order) => forall|i: int, j: int|
            0 <= i < j < places.len() ==> comes_first(
                order,
                listed,
                #[trigger] places[i],
                #[trigger] places[j],
            ),
        None => forall|i: int| 0 <= i < places.len() ==> #[trigger] places[i] == i,
    }
}

/// The identifiers of the entries of a group submenu: the delay test, then the nodes.
pub open spec fn item_ids(group: Seq<char>, names: Seq<Seq<char>>) -> Seq<Seq<char>> {
    seq![menu_id::delay_test_id(group)] + names.map_values(
        |name: Seq<char>| menu_id::node_id(group, name),
    )
}

/// The entries that could be made, in their order.
pub open spec fn made<T>(attempts: Seq<Option<T>>) -> Seq<T>
    decreases attempts.len(),
{
    if attempts.len() == 0 {
        seq![]
    } else {
        match attempts.last() {
            Some(entry) => made(attempts.drop_last()).push(entry),
            None => made(attempts.drop_last()),
        }
    }
}

/// Moving the group at `at` forward to `to`, behind all groups that may stay before it, keeps the
/// groups up to it sorted.
proof fn lemma_moved<T>(
    order: Map<Seq<char>, usize>,
    groups: Seq<(String, usize, T)>,
    places: Seq<int>,
    at: int,
    to: int,
)
    requires
        0 <= to <= at < groups.len(),
        is_permutation(places, groups.len()),
        forall|p: int| 0 <= p < at ==> 0 <= #[trigger] places[p] < at,
        forall|p: int| at <= p < groups.len() ==> #[trigger] places[p] == p,
        forall|p: int, q: int|
            0 <= p < q < at ==> stays_before(
                order,
                groups,
                #[trigger] places[p],
                #[trigger] places[q],
            ),
        forall|p: int|
            to <= p < at ==> precedes(
                order,
                groups[at].0@,
                groups[at].1 as int,
                groups[#[trigger] places[p]].0@,
                groups[places[p]].1 as int,
            ),
        to > 0 ==> !precedes(
            order,
            groups[at].0@,
            groups[at].1 as int,
            groups[places[to - 1]].0@,
            groups[places[to - 1]].1 as int,
        ),
    ensures
        ({
            let moved = places.remove(at).insert(to, at);
            &&& is_permutation(moved, groups.len())
            &&& forall|p: int| 0 <= p <= at ==> 0 <= #[trigger] moved[p] <= at
            &&& forall|p: int| at < p < groups.len() ==> #[trigger] moved[p] == p
            &&& forall|p: int, q: int|
                0 <= p < q <= at ==> stays_before(
                    order,
                    groups,
                    #[trigger] moved[p],
                    #[trigger] moved[q],
                )
        }),
{
    let moved = places.remove(at).insert(to, at);
    assert forall|p: int| 0 <= p < groups.len() implies #[trigger] moved[p] == (if p < to {
        places[p]
    } else if p == to {
        at
    } else if p <= at {
        places[p - 1]
    } else {
        places[p]
    }) by {}
    assert forall|p: int| 0 <= p < to implies stays_before(order, groups, #[trigger] places[p], at) by {
        if p < to - 1 {
            assert(stays_before(order, groups, places[p], places[to - 1]));
        }
    }
    assert forall|p: int, q: int| 0 <= p < q <= at implies stays_before(
        order,
        groups,
        #[trigger] moved[p],
        #[trigger] moved[q],
    ) by {
        if p < to && q > to {
            assert(stays_before(order, groups, places[p], places[q - 1]));
        } else if p < to && q < to {
            assert(stays_before(order, groups, places[p], places[q]));
        } else if p > to {
            assert(stays_before(order, groups, places[p - 1], places[q - 1]));
        }
    }
    assert(moved.no_duplicates()) by {
        assert forall|p: int, q: int| 0 <= p < q < moved.len() implies moved[p] != moved[q] by {
            assert(places[at] == at);
        }
    }
}

} // verus!
