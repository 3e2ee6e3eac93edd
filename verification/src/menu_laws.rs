//! What holds of every proxy menu.
use crate::delay;
use crate::delay::{TrayDelayState, TrayLabels};
use crate::latency;
use crate::latency::TrayProxyLatencyController;
use crate::menu;
use crate::menu::{GroupMenu, MenuSource, TrayProxyGroupOrder, TrayProxySubmenu};
use crate::menu_id;
use crate::menu_id::MenuAction;
use crate::proxies::{Proxies, Proxy};
use vstd::prelude::*;

verus! {

/// Every entry of a group submenu parses back to what it stands for: the delay test to a test of
/// the group, each node entry to the selection of its node, the submenu itself to no action. The
/// identifiers of the entries are those of the delay test and of the nodes, in this order.
pub proof fn menu_entries_parse_back(
    source: MenuSource,
    mode: Seq<char>,
    name: Seq<char>,
    proxy: Proxy,
    menu: GroupMenu,
)
    requires
        menu::group_menu(source, mode, name, proxy) == Some(menu),
    ensures
        menu_id::action_of(menu.id) is None,
        menu_id::action_of(menu.delay_test_id) == Some(MenuAction::TestGroupDelay { group: name }),
        menu.nodes.len() == proxy.members().len(),
        forall|i: int|
            0 <= i < menu.nodes.len() ==> menu_id::action_of((#[trigger] menu.nodes[i]).id) == Some(
                MenuAction::SelectNode { group: name, proxy: proxy.members()[i] },
            ),
        seq![menu.delay_test_id] + menu.nodes.map_values(|node: menu::NodeEntry| node.id)
            == menu::item_ids(name, proxy.members()),
{
    menu_id::group_id_has_no_action(name);
    menu_id::delay_test_id_round_trip(name);
    assert forall|i: int| 0 <= i < menu.nodes.len() implies menu_id::action_of(
        (#[trigger] menu.nodes[i]).id,
    ) == Some(MenuAction::SelectNode { group: name, proxy: proxy.members()[i] }) by {
        menu_id::node_id_round_trip(name, proxy.members()[i]);
    }
    assert(seq![menu.delay_test_id] + menu.nodes.map_values(|node: menu::NodeEntry| node.id)
        =~= menu::item_ids(name, proxy.members()));
}

/// A menu lists a submenu under a name exactly where the name is one of those given and the proxy
/// of that name has that submenu. So in the global mode only the global group is listed, in any
/// other mode it is not, and hidden or empty groups never are.
pub proof fn listed_groups_are_shown_groups(
    source: MenuSource,
    mode: Seq<char>,
    names: Seq<Seq<char>>,
    name: Seq<char>,
    menu: GroupMenu,
)
    ensures
        menu::listed_menus(source, mode, names).contains((name, menu)) <==> {
            &&& names.contains(name)
            &&& menu::group_menu(source, mode, name, source.proxies[name]) == Some(menu)
        },
        menu::listed_menus(source, mode, names).contains((name, menu)) ==> {
            &&& (mode == menu::GLOBAL_MODE@) == (name == menu::GLOBAL_GROUP@)
            &&& source.proxies[name].hidden != Some(true)
            &&& menu.nodes.len() > 0
        },
    decreases names.len(),
{
    let listed = menu::listed_menus(source, mode, names);
    if names.len() > 0 {
        let rest = names.drop_last();
        let before = menu::listed_menus(source, mode, rest);
        let last = names.last();
        listed_groups_are_shown_groups(source, mode, rest, name, menu);
        assert(names.contains(name) <==> rest.contains(name) || name == last) by {
            if rest.contains(name) {
                let i = choose|i: int| 0 <= i < rest.len() && rest[i] == name;
                assert(names[i] == name);
            }
            assert(names[names.len() - 1] == last);
            if names.contains(name) && name != last {
                let i = choose|i: int| 0 <= i < names.len() && names[i] == name;
                assert(rest[i] == name);
            }
        }
        if let Some(own) = menu::group_menu(source, mode, last, source.proxies[last]) {
            assert(listed == before.push((last, own)));
            if before.contains((name, menu)) {
                let i = choose|i: int| 0 <= i < before.len() && before[i] == (name, menu);
                assert(listed[i] == (name, menu));
            }
            assert(listed[before.len() as int] == (last, own));
            if listed.contains((name, menu)) && (name, menu) != (last, own) {
                let i = choose|i: int| 0 <= i < listed.len() && listed[i] == (name, menu);
                assert(before[i] == (name, menu));
            }
        }
    }
}

/// In a menu with configured places, groups that have one come before those that have none, groups
/// with a place follow each other by it, and groups without one keep the listed order.
pub proof fn configured_groups_come_first(
    order: Map<Seq<char>, usize>,
    listed: Seq<(Seq<char>, GroupMenu)>,
    shown: Seq<GroupMenu>,
    places: Seq<int>,
    i: int,
    j: int,
)
    requires
        menu::is_menu_order(Some(order), listed, shown, places),
        0 <= i < j < shown.len(),
    ensures
        ({
            let (first, second) = (listed[places[i]].0, listed[places[j]].0);
            &&& order.contains_key(second) ==> order.contains_key(first) && order[first]
                <= order[second]
            &&& order.contains_key(first) && order.contains_key(second) && order[first]
                == order[second] ==> places[i] < places[j]
            &&& !order.contains_key(first) ==> places[i] < places[j]
        }),
{
    assert(menu::comes_first(order, listed, places[i], places[j]));
}

/// A permutation holds every number once.
proof fn lemma_permutation(places: Seq<int>, count: nat)
    requires
        menu::is_permutation(places, count),
    ensures
        forall|x: int| places.to_multiset().count(x) == (if 0 <= x < count {
            1nat
        } else {
            0nat
        }),
{
    let numbers = vstd::set_lib::set_int_range(0, count as int);
    let held = places.to_set();
    vstd::set_lib::lemma_int_range(0, count as int);
    places.unique_seq_to_set();
    assert(held.subset_of(numbers)) by {
        assert forall|x: int| held.contains(x) implies numbers.contains(x) by {
            let i = choose|i: int| 0 <= i < places.len() && places[i] == x;
            assert(0 <= places[i] < count);
        }
    }
    vstd::set_lib::lemma_subset_equality(held, numbers);
    places.lemma_multiset_has_no_duplicates();
    places.to_multiset_ensures();
    assert forall|x: int| places.to_multiset().count(x) == (if 0 <= x < count {
        1nat
    } else {
        0nat
    }) by {
        assert(held.contains(x) <==> numbers.contains(x));
        assert(held.contains(x) <==> places.contains(x));
    }
}

/// The order of a menu is fully determined: with the same configured places, the same listed
/// submenus can be shown in one way only.
pub proof fn menu_order_is_determined(
    order: Option<Map<Seq<char>, usize>>,
    listed: Seq<(Seq<char>, GroupMenu)>,
    shown: Seq<GroupMenu>,
    places: Seq<int>,
    other_shown: Seq<GroupMenu>,
    other_places: Seq<int>,
)
    requires
        menu::is_menu_order(order, listed, shown, places),
        menu::is_menu_order(order, listed, other_shown, other_places),
    ensures
        places == other_places,
        shown == other_shown,
{
    match order {
        Some(order) => {
            let leq = |a: int, b: int| a == b || menu::comes_first(order, listed, a, b);
            lemma_permutation(places, listed.len());
            lemma_permutation(other_places, listed.len());
            assert(places.to_multiset() =~= other_places.to_multiset());
            assert(vstd::relations::sorted_by(places, leq)) by {
                assert forall|i: int, j: int| 0 <= i < j < places.len() implies #[trigger] leq(
                    places[i],
                    places[j],
                ) by {
                    assert(menu::comes_first(order, listed, places[i], places[j]));
                }
            }
            assert(vstd::relations::sorted_by(other_places, leq)) by {
                assert forall|i: int, j: int|
                    0 <= i < j < other_places.len() implies #[trigger] leq(
                    other_places[i],
                    other_places[j],
                ) by {
                    assert(menu::comes_first(order, listed, other_places[i], other_places[j]));
                }
            }
            assert(vstd::relations::total_ordering(leq));
            vstd::seq_lib::lemma_sorted_unique(places, other_places, leq);
        },
        None => {
            assert(places =~= other_places);
        },
    }
    assert(shown =~= other_shown) by {
        assert forall|i: int| 0 <= i < shown.len() implies shown[i] == other_shown[i] by {
            assert(shown[i] == listed[places[i]].1);
            assert(other_shown[i] == listed[other_places[i]].1);
        }
    }
}

/// Every group that is not hidden, lists members, and is the global group exactly in the global mode
/// is listed under its name. Nothing else about it makes a difference. And every listed group is one
/// of those.
pub proof fn exactly_belonging_groups_are_listed(
    source: MenuSource,
    mode: Seq<char>,
    names: Seq<Seq<char>>,
    name: Seq<char>,
)
    ensures
        (exists|i: int|
            0 <= i < menu::listed_menus(source, mode, names).len() && (
            #[trigger] menu::listed_menus(source, mode, names)[i]).0 == name) <==> names.contains(
            name,
        ) && {
            let proxy = source.proxies[name];
            &&& proxy.hidden != Some(true)
            &&& proxy.all matches Some(all) && all@.len() > 0
            &&& mode == "global"@ <==> name == "GLOBAL"@
        },
{
    let listed = menu::listed_menus(source, mode, names);
    let proxy = source.proxies[name];
    if names.contains(name) && proxy.hidden != Some(true) && proxy.all is Some
        && proxy.all->0@.len() > 0 && (mode == "global"@ <==> name == "GLOBAL"@) {
        assert(proxy.members().len() > 0);
        let own = menu::group_menu(source, mode, name, proxy)->0;
        listed_groups_are_shown_groups(source, mode, names, name, own);
        let i = choose|i: int| 0 <= i < listed.len() && listed[i] == (name, own);
        assert(listed[i].0 == name);
    }
    if exists|i: int| 0 <= i < listed.len() && (#[trigger] listed[i]).0 == name {
        let i = choose|i: int| 0 <= i < listed.len() && (#[trigger] listed[i]).0 == name;
        assert(listed.contains(listed[i]));
        listed_groups_are_shown_groups(source, mode, names, name, listed[i].1);
    }
}

/// Listed groups keep the order of the given names: they stand at growing places among them.
proof fn lemma_listed_in_order(
    source: MenuSource,
    mode: Seq<char>,
    names: Seq<Seq<char>>,
) -> (at: Seq<int>)
    ensures
        at.len() == menu::listed_menus(source, mode, names).len(),
        forall|i: int|
            0 <= i < at.len() ==> {
                &&& 0 <= #[trigger] at[i] < names.len()
                &&& menu::listed_menus(source, mode, names)[i].0 == names[at[i]]
            },
        forall|i: int, j: int| 0 <= i < j < at.len() ==> #[trigger] at[i] < #[trigger] at[j],
        forall|i: int|
            0 <= i < at.len() ==> menu::group_menu(
                source,
                mode,
                names[#[trigger] at[i]],
                source.proxies[names[at[i]]],
            ) == Some(menu::listed_menus(source, mode, names)[i].1),
    decreases names.len(),
{
    if names.len() == 0 {
        seq![]
    } else {
        let rest = names.drop_last();
        let before = lemma_listed_in_order(source, mode, rest);
        let last = names.len() - 1;
        let listed = menu::listed_menus(source, mode, names);
        match menu::group_menu(source, mode, names[last], source.proxies[names[last]]) {
            Some(menu) => {
                let at = before.push(last);
                assert forall|i: int| 0 <= i < at.len() implies {
                    &&& 0 <= #[trigger] at[i] < names.len()
                    &&& listed[i].0 == names[at[i]]
                    &&& menu::group_menu(
                        source,
                        mode,
                        names[at[i]],
                        source.proxies[names[at[i]]],
                    ) == Some(listed[i].1)
                } by {
                    if i < before.len() {
                        assert(rest[before[i]] == names[before[i]]);
                    }
                }
                at
            },
            None => {
                assert forall|i: int| 0 <= i < before.len() implies {
                    &&& 0 <= #[trigger] before[i] < names.len()
                    &&& listed[i].0 == names[before[i]]
                    &&& menu::group_menu(
                        source,
                        mode,
                        names[before[i]],
                        source.proxies[names[before[i]]],
                    ) == Some(listed[i].1)
                } by {
                    assert(rest[before[i]] == names[before[i]]);
                }
                before
            },
        }
    }
}

/// A place in a permutation holds each number.
proof fn lemma_permutation_has(places: Seq<int>, count: nat, x: int) -> (i: int)
    requires
        menu::is_permutation(places, count),
        0 <= x < count,
    ensures
        0 <= i < places.len(),
        places[i] == x,
{
    lemma_permutation(places, count);
    places.to_multiset_ensures();
    assert(places.to_multiset().count(x) == 1);
    assert(places.contains(x));
    choose|i: int| 0 <= i < places.len() && places[i] == x
}

/// Every submenu carries the name of its group as its title.
proof fn lemma_titles(
    mode: Seq<char>,
    order: Option<&TrayProxyGroupOrder>,
    proxies: &Proxies,
    timeout: u32,
    latency: &TrayProxyLatencyController,
    labels: &TrayLabels,
    submenus: Seq<TrayProxySubmenu>,
    places: Seq<int>,
    i: int,
)
    requires
        menu::is_menu_order(
            menu::order_of(order),
            menu::listed_menus(
                menu::menu_source(proxies, timeout, latency, labels),
                mode,
                proxies.order(),
            ),
            menu::menus(submenus),
            places,
        ),
        0 <= i < submenus.len(),
    ensures
        ({
            let source = menu::menu_source(proxies, timeout, latency, labels);
            let listed = menu::listed_menus(source, mode, proxies.order());
            let name = listed[places[i]].0;
            &&& 0 <= places[i] < listed.len()
            &&& submenus[i]@ == listed[places[i]].1
            &&& submenus[i].title@ == name
            &&& proxies.order().contains(name)
            &&& menu::group_menu(source, mode, name, proxies@[name]) == Some(submenus[i]@)
        }),
{
    let source = menu::menu_source(proxies, timeout, latency, labels);
    let listed = menu::listed_menus(source, mode, proxies.order());
    let at = lemma_listed_in_order(source, mode, proxies.order());
    assert(menu::menus(submenus)[i] == listed[places[i]].1);
    assert(menu::menus(submenus)[i] == submenus[i]@);
    assert(0 <= at[places[i]] < proxies.order().len());
    assert(submenus[i]@.title == submenus[i].title@);
}

/// A menu shows exactly the groups that belong into it, each once, under its own name: those that
/// are not hidden, list members, and are the global group exactly in the global mode.
pub proof fn menu_shows_exactly_the_belonging_groups(
    mode: Seq<char>,
    order: Option<&TrayProxyGroupOrder>,
    proxies: &Proxies,
    timeout: u32,
    latency: &TrayProxyLatencyController,
    labels: &TrayLabels,
    submenus: Seq<TrayProxySubmenu>,
    places: Seq<int>,
)
    requires
        proxies.wf(),
        menu::is_menu_order(
            menu::order_of(order),
            menu::listed_menus(
                menu::menu_source(proxies, timeout, latency, labels),
                mode,
                proxies.order(),
            ),
            menu::menus(submenus),
            places,
        ),
    ensures
        forall|name: Seq<char>| #[trigger]
            proxies@.contains_key(name) && proxies@[name].hidden != Some(true) && (
            proxies@[name].all matches Some(all) && all@.len() > 0) && (mode == "global"@ <==> name
                == "GLOBAL"@) ==> exists|i: int|
                0 <= i < submenus.len() && (#[trigger] submenus[i]).title@ == name,
        forall|i: int|
            0 <= i < submenus.len() ==> {
                let name = (#[trigger] submenus[i]).title@;
                &&& proxies@.contains_key(name)
                &&& proxies@[name].hidden != Some(true)
                &&& proxies@[name].all matches Some(all) && all@.len() > 0
                &&& mode == "global"@ <==> name == "GLOBAL"@
            },
        forall|i: int, j: int|
            0 <= i < j < submenus.len() ==> (#[trigger] submenus[i]).title@ != (
            #[trigger] submenus[j]).title@,
{
    let source = menu::menu_source(proxies, timeout, latency, labels);
    let names = proxies.order();
    let listed = menu::listed_menus(source, mode, names);
    let at = lemma_listed_in_order(source, mode, names);
    assert(menu::menus(submenus).len() == submenus.len());
    assert forall|name: Seq<char>| #[trigger]
        proxies@.contains_key(name) && proxies@[name].hidden != Some(true) && (
        proxies@[name].all matches Some(all) && all@.len() > 0) && (mode == "global"@ <==> name
            == "GLOBAL"@) implies exists|i: int|
        0 <= i < submenus.len() && (#[trigger] submenus[i]).title@ == name by {
        exactly_belonging_groups_are_listed(source, mode, names, name);
        assert(names.contains(name));
        let k = choose|k: int| 0 <= k < listed.len() && (#[trigger] listed[k]).0 == name;
        let i = lemma_permutation_has(places, listed.len(), k);
        lemma_titles(mode, order, proxies, timeout, latency, labels, submenus, places, i);
        assert(submenus[i].title@ == name);
    }
    assert forall|i: int| 0 <= i < submenus.len() implies {
        let name = (#[trigger] submenus[i]).title@;
        &&& proxies@.contains_key(name)
        &&& proxies@[name].hidden != Some(true)
        &&& proxies@[name].all matches Some(all) && all@.len() > 0
        &&& mode == "global"@ <==> name == "GLOBAL"@
    } by {
        lemma_titles(mode, order, proxies, timeout, latency, labels, submenus, places, i);
        let name = submenus[i].title@;
        exactly_belonging_groups_are_listed(source, mode, names, name);
        assert(listed[places[i]].0 == name);
    }
    assert forall|i: int, j: int| 0 <= i < j < submenus.len() implies (#[trigger] submenus[i]).title@
        != (#[trigger] submenus[j]).title@ by {
        lemma_titles(mode, order, proxies, timeout, latency, labels, submenus, places, i);
        lemma_titles(mode, order, proxies, timeout, latency, labels, submenus, places, j);
        assert(places[i] != places[j]);
        assert(at[places[i]] != at[places[j]]);
        assert(names[at[places[i]]] != names[at[places[j]]]);
    }
}

/// The order of a menu, told by titles. A group with a configured place comes before all without
/// one, and before those with a higher place. Where places do not decide, and where no order is
/// configured, groups follow each other as the core reports them.
pub proof fn menu_follows_the_configured_places(
    mode: Seq<char>,
    order: Option<&TrayProxyGroupOrder>,
    proxies: &Proxies,
    timeout: u32,
    latency: &TrayProxyLatencyController,
    labels: &TrayLabels,
    submenus: Seq<TrayProxySubmenu>,
    places: Seq<int>,
    i: int,
    j: int,
    a: int,
    b: int,
)
    requires
        proxies.wf(),
        menu::is_menu_order(
            menu::order_of(order),
            menu::listed_menus(
                menu::menu_source(proxies, timeout, latency, labels),
                mode,
                proxies.order(),
            ),
            menu::menus(submenus),
            places,
        ),
        0 <= i < j < submenus.len(),
        0 <= a < proxies.order().len(),
        0 <= b < proxies.order().len(),
        proxies.order()[a] == submenus[i].title@,
        proxies.order()[b] == submenus[j].title@,
    ensures
        order is None ==> a < b,
        order matches Some(order) ==> {
            let (first, second) = (submenus[i].title@, submenus[j].title@);
            &&& order@.contains_key(second) ==> order@.contains_key(first) && order@[first]
                <= order@[second]
            &&& order@.contains_key(first) && order@.contains_key(second) && order@[first]
                == order@[second] ==> a < b
            &&& !order@.contains_key(first) && !order@.contains_key(second) ==> a < b
        },
{
    let source = menu::menu_source(proxies, timeout, latency, labels);
    let names = proxies.order();
    let listed = menu::listed_menus(source, mode, names);
    let at = lemma_listed_in_order(source, mode, names);
    assert(menu::menus(submenus).len() == submenus.len());
    lemma_titles(mode, order, proxies, timeout, latency, labels, submenus, places, i);
    lemma_titles(mode, order, proxies, timeout, latency, labels, submenus, places, j);
    assert(names[at[places[i]]] == names[a]);
    assert(names[at[places[j]]] == names[b]);
    assert(at[places[i]] == a);
    assert(at[places[j]] == b);
    match order {
        Some(order) => {
            configured_groups_come_first(
                order@,
                listed,
                menu::menus(submenus),
                places,
                i,
                j,
            );
        },
        None => {
            assert(places[i] == i && places[j] == j);
        },
    }
}

/// The contents of a submenu: the delay test carries the user's word for it, and there is one entry
/// for each listed member of the group, in the listed order. Each entry is titled with the name of
/// its node, a tab and the text of its state, and checked exactly where the group names the node as
/// selected. The state is the cached one, or else that of the last measurement in the node's own
/// history, or else unknown.
pub proof fn submenus_hold_all_members_with_their_states(
    mode: Seq<char>,
    order: Option<&TrayProxyGroupOrder>,
    proxies: &Proxies,
    timeout: u32,
    latency: &TrayProxyLatencyController,
    labels: &TrayLabels,
    submenus: Seq<TrayProxySubmenu>,
    places: Seq<int>,
    i: int,
    k: int,
)
    requires
        proxies.wf(),
        menu::is_menu_order(
            menu::order_of(order),
            menu::listed_menus(
                menu::menu_source(proxies, timeout, latency, labels),
                mode,
                proxies.order(),
            ),
            menu::menus(submenus),
            places,
        ),
        0 <= i < submenus.len(),
        0 <= k < submenus[i].nodes@.len(),
    ensures
        ({
            let submenu = submenus[i];
            let group = submenu.title@;
            let data = proxies@[group];
            let node = submenu.nodes@[k];
            let name = data.all->0@[k]@;
            let key = group + "::"@ + name;
            let cache = latency@.cache;
            &&& submenu.id@ == "proxy_group_"@ + group
            &&& submenu.delay_test.title@ == labels.delay_test@
            &&& menu_id::action_of(submenu.delay_test.id@) == Some(
                MenuAction::TestGroupDelay { group },
            )
            &&& submenu.nodes@.len() == data.all->0@.len()
            &&& menu_id::action_of(node.id@) == Some(MenuAction::SelectNode { group, proxy: name })
            &&& data.now matches Some(now) ==> (node.checked <==> now@ == name)
            &&& data.now is None ==> (node.checked <==> name.len() == 0)
            &&& cache.contains_key(key) ==> node.title@ == name + "\t"@ + delay::state_text(
                cache[key],
                labels@,
            )
            &&& !cache.contains_key(key) && proxies@.contains_key(name)
                && proxies@[name].history@.len() > 0 ==> {
                let delay = proxies@[name].history@[proxies@[name].history@.len() - 1].delay;
                let prefix = name + "\t"@;
                &&& 0 < delay < timeout && delay <= 100_000 ==> node.title@ == prefix
                    + delay::state_text(TrayDelayState::Value(delay), labels@)
                &&& delay == 0 || timeout <= delay <= 100_000 ==> node.title@ == prefix
                    + labels.timeout@
                &&& delay > 100_000 ==> node.title@ == prefix + labels.error@
            }
            &&& !cache.contains_key(key) && !(proxies@.contains_key(name)
                && proxies@[name].history@.len() > 0) ==> node.title@ == name + "\t"@ + "-"@
        }),
{
    let source = menu::menu_source(proxies, timeout, latency, labels);
    assert(menu::menus(submenus).len() == submenus.len());
    lemma_titles(mode, order, proxies, timeout, latency, labels, submenus, places, i);
    let submenu = submenus[i];
    let group = submenu.title@;
    let data = proxies@[group];
    let node = submenu.nodes@[k];
    menu_entries_parse_back(source, mode, group, data, submenu@);
    assert(submenu@.nodes[k] == node@);
    assert(data.members().len() == data.all->0@.len());
    let name = data.members()[k];
    assert(name == data.all->0@[k]@);
    assert(node@ == menu::node_entry(source, group, data.selected(), name));
    latency::keys_spell_group_and_node(group, name, group, name);
    menu_id::ids_spell_out_their_names(group, name);
    delay::texts_of_states_without_value(*labels);
    let state = latency::shown_state(
        source.cache,
        group,
        name,
        menu::listed_delay(source.proxies, name),
        timeout,
    );
    delay::titles_are_name_tab_delay(name, delay::state_text(state, labels@));
    if data.now is None {
        assert(name.len() == 0 ==> name =~= data.selected());
    }
}

/// What the entries of a menu depend on is what was handed in.
pub proof fn menu_sources_keep_what_is_given(
    proxies: &Proxies,
    timeout: u32,
    latency: &TrayProxyLatencyController,
    labels: &TrayLabels,
    order: &TrayProxyGroupOrder,
    submenus: Seq<TrayProxySubmenu>,
)
    ensures
        menu::menu_source(proxies, timeout, latency, labels).proxies == proxies@,
        menu::menu_source(proxies, timeout, latency, labels).cache == latency@.cache,
        menu::menu_source(proxies, timeout, latency, labels).timeout == timeout,
        menu::menu_source(proxies, timeout, latency, labels).labels.delay_test
            == labels.delay_test@,
        menu::menu_source(proxies, timeout, latency, labels).labels.testing == labels.testing@,
        menu::menu_source(proxies, timeout, latency, labels).labels.timeout == labels.timeout@,
        menu::menu_source(proxies, timeout, latency, labels).labels.error == labels.error@,
        menu::order_of(Some(order)) == Some(order@),
        menu::order_of(None) is None,
        menu::menus(submenus).len() == submenus.len(),
{
}

/// A group is shown or not by its name, the mode, its hidden flag and its list alone: two groups that
/// agree on these are treated alike, whatever else they hold.
pub proof fn shown_groups_by_flag_list_and_name(mode: Seq<char>, name: Seq<char>, proxy: Proxy)
    ensures
        menu::shows_group(mode, name, proxy) <==> {
            &&& mode == "global"@ <==> name == "GLOBAL"@
            &&& proxy.hidden is None || proxy.hidden == Some(false)
            &&& proxy.all is Some
        },
{
    match proxy.hidden {
        Some(hidden) => {
            assert(hidden || !hidden);
        },
        None => {},
    }
}

/// A stable sort gives back every group it was given, each once, and never puts a group before one
/// that has to come first: by configured place, then groups with a place before those without, then
/// by index, then as they stood.
pub proof fn sorted_groups_follow_places_and_indices<T>(
    order: Map<Seq<char>, usize>,
    before: Seq<(String, usize, T)>,
    after: Seq<(String, usize, T)>,
    places: Seq<int>,
    i: int,
    j: int,
)
    requires
        menu::is_stable_sort(order, before, after, places),
        0 <= i < j < after.len(),
    ensures
        after.len() == before.len(),
        0 <= places[i] < before.len(),
        0 <= places[j] < before.len(),
        places[i] != places[j],
        after[i] == before[places[i]],
        after[j] == before[places[j]],
        ({
            let (first, second) = (after[i].0@, after[j].0@);
            &&& order.contains_key(second) ==> order.contains_key(first) && order[first]
                <= order[second]
            &&& order.contains_key(first) && order.contains_key(second) && order[first]
                == order[second] ==> places[i] < places[j]
            &&& !order.contains_key(first) && !order.contains_key(second) ==> after[i].1
                < after[j].1 || (after[i].1 == after[j].1 && places[i] < places[j])
        }),
{
    assert(menu::stays_before(order, before, places[i], places[j]));
    assert(places[i] != places[j]);
}

/// The entries that could be made, attempt by attempt: one more success adds its entry at the end,
/// one more failure adds nothing.
pub proof fn made_entries_attempt_by_attempt<T>(attempts: Seq<Option<T>>, entry: T)
    ensures
        menu::made(Seq::<Option<T>>::empty()) == Seq::<T>::empty(),
        menu::made(attempts.push(Some(entry))) == menu::made(attempts).push(entry),
        menu::made(attempts.push(None)) == menu::made(attempts),
{
    assert(attempts.push(Some(entry)).drop_last() =~= attempts);
    assert(attempts.push(None).drop_last() =~= attempts);
}

/// The identifiers of a submenu: the delay test of the group first, then for each node, in order,
/// the one that selects it.
pub proof fn item_ids_in_order(group: Seq<char>, names: Seq<Seq<char>>)
    ensures
        menu::item_ids(group, names).len() == names.len() + 1,
        menu_id::action_of(menu::item_ids(group, names)[0]) == Some(
            MenuAction::TestGroupDelay { group },
        ),
        menu::item_ids(group, names)[0] == menu_id::delay_test_id(group),
        forall|i: int|
            0 <= i < names.len() ==> menu::item_ids(group, names)[i + 1] == menu_id::node_id(
                group,
                #[trigger] names[i],
            ),
        forall|i: int|
            0 <= i < names.len() ==> menu_id::action_of(menu::item_ids(group, names)[i + 1]) == Some(
                MenuAction::SelectNode { group, proxy: #[trigger] names[i] },
            ),
{
    menu_id::delay_test_id_round_trip(group);
    assert forall|i: int| 0 <= i < names.len() implies menu_id::action_of(
        menu::item_ids(group, names)[i + 1],
    ) == Some(MenuAction::SelectNode { group, proxy: #[trigger] names[i] }) by {
        menu_id::node_id_round_trip(group, names[i]);
    }
}

/// Lists of places with the same places in any order pick the same items.
proof fn lemma_same_places_same_items<T>(items: Seq<T>, places: Seq<int>, others: Seq<int>)
    requires
        places.to_multiset() == others.to_multiset(),
    ensures
        places.map_values(|i: int| items[i]).to_multiset() == others.map_values(
            |i: int| items[i],
        ).to_multiset(),
    decreases places.len(),
{
    let pick = |i: int| items[i];
    let (picked, other_picked) = (places.map_values(pick), others.map_values(pick));
    places.to_multiset_ensures();
    others.to_multiset_ensures();
    if places.len() == 0 {
        assert(picked =~= other_picked);
    } else {
        let last = places.last();
        let rest = places.drop_last();
        assert(places.to_multiset().count(last) > 0) by {
            assert(places[places.len() - 1] == last);
            assert(places.contains(last));
        }
        assert(others.contains(last));
        let at = choose|i: int| 0 <= i < others.len() && others[i] == last;
        let other_rest = others.remove(at);
        assert(places =~= rest.push(last));
        rest.to_multiset_ensures();
        assert(rest.to_multiset() =~= places.to_multiset().remove(last));
        assert(other_rest.to_multiset() =~= others.to_multiset().remove(last));
        lemma_same_places_same_items(items, rest, other_rest);
        rest.map_values(pick).to_multiset_ensures();
        other_picked.to_multiset_ensures();
        assert(picked =~= rest.map_values(pick).push(pick(last)));
        assert(other_picked.remove(at) =~= other_rest.map_values(pick));
        assert(other_picked[at] == pick(last));
        assert(other_picked.contains(pick(last)));
        assert(other_picked.to_multiset() =~= other_picked.remove(at).to_multiset().insert(
            pick(last),
        ));
    }
}

/// Sorting neither drops nor repeats a group.
pub proof fn sorting_keeps_every_group<T>(
    order: Map<Seq<char>, usize>,
    before: Seq<(String, usize, T)>,
    after: Seq<(String, usize, T)>,
    places: Seq<int>,
)
    requires
        menu::is_stable_sort(order, before, after, places),
    ensures
        after.to_multiset() == before.to_multiset(),
{
    let numbers = Seq::new(before.len(), |i: int| i);
    lemma_permutation(places, before.len());
    lemma_permutation(numbers, before.len());
    assert(places.to_multiset() =~= numbers.to_multiset());
    lemma_same_places_same_items(before, places, numbers);
    assert(places.map_values(|i: int| before[i]) =~= after);
    assert(numbers.map_values(|i: int| before[i]) =~= before);
}

/// What could be made of attempts that all went well is each of them in order, and of attempts that
/// all failed it is nothing. One that went well is enough for something.
pub proof fn made_entries_of_all_and_none<T>(attempts: Seq<Option<T>>)
    ensures
        (forall|i: int| 0 <= i < attempts.len() ==> (#[trigger] attempts[i]) is None) ==> menu::made(
            attempts,
        ).len() == 0,
        (forall|i: int| 0 <= i < attempts.len() ==> (#[trigger] attempts[i]) is Some) ==> {
            &&& menu::made(attempts).len() == attempts.len()
            &&& forall|i: int|
                0 <= i < attempts.len() ==> menu::made(attempts)[i] == (#[trigger] attempts[i])->0
        },
        (exists|i: int| 0 <= i < attempts.len() && (#[trigger] attempts[i]) is Some) ==> menu::made(
            attempts,
        ).len() > 0,
    decreases attempts.len(),
{
    if attempts.len() > 0 {
        let rest = attempts.drop_last();
        made_entries_of_all_and_none(rest);
        assert forall|i: int| 0 <= i < rest.len() implies #[trigger] rest[i] == attempts[i] by {}
        if forall|i: int| 0 <= i < attempts.len() ==> (#[trigger] attempts[i]) is None {
            assert(attempts[attempts.len() - 1] is None);
            assert(forall|i: int| 0 <= i < rest.len() ==> (#[trigger] rest[i]) is None);
        }
        if forall|i: int| 0 <= i < attempts.len() ==> (#[trigger] attempts[i]) is Some {
            assert(attempts[attempts.len() - 1] is Some);
            assert(forall|i: int| 0 <= i < rest.len() ==> (#[trigger] rest[i]) is Some);
            assert forall|i: int| 0 <= i < attempts.len() implies menu::made(attempts)[i] == (
            #[trigger] attempts[i])->0 by {
                if i < rest.len() {
                    assert(menu::made(rest)[i] == rest[i]->0);
                }
            }
        }
        if exists|i: int| 0 <= i < attempts.len() && (#[trigger] attempts[i]) is Some {
            let i = choose|i: int| 0 <= i < attempts.len() && (#[trigger] attempts[i]) is Some;
            if i < rest.len() {
                assert(rest[i] is Some);
            }
        }
    }
}

} // verus!
