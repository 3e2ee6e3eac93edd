//! Group submenus, their order, and delay tests of groups.
use tray_proxy::delay::{TrayDelayState, TrayLabels};
use tray_proxy::group_test::{GroupDelayTest, GroupTestAction, GroupTestEvent};
use tray_proxy::latency::{GroupTestInput, TrayProxyLatencyController};
use tray_proxy::menu::{TrayProxyGroupOrder, TrayProxyMenuBuilder, TrayProxySubmenu};
use tray_proxy::menu_id::{TrayProxyMenuAction, TrayProxyMenuId};
use tray_proxy::proxies::{DelayHistory, Proxies, Proxy};

fn labels() -> TrayLabels {
    TrayLabels {
        delay_test: "Delay test".into(),
        testing: "Testing".into(),
        timeout: "Timeout".into(),
        error: "Error".into(),
    }
}

fn group(all: &[&str], now: Option<&str>, hidden: Option<bool>) -> Proxy {
    Proxy {
        all: Some(all.iter().map(|name| name.to_string()).collect()),
        now: now.map(|name| name.to_string()),
        hidden,
        history: Vec::new(),
    }
}

fn node(delay: u32) -> Proxy {
    Proxy {
        all: None,
        now: None,
        hidden: None,
        history: vec![DelayHistory { delay }],
    }
}

fn proxies() -> Proxies {
    let mut proxies = Proxies::new();
    proxies.insert("z".into(), group(&["n1"], None, None));
    proxies.insert("n1".into(), node(120));
    proxies.insert("GLOBAL".into(), group(&["z"], Some("z"), None));
    proxies.insert("a".into(), group(&["n1", "n2"], Some("n2"), Some(false)));
    proxies.insert("hid".into(), group(&["n1"], None, Some(true)));
    proxies.insert("empty".into(), group(&[], None, None));
    proxies.insert("m".into(), group(&["n1"], None, None));
    proxies
}

fn titles(submenus: &[TrayProxySubmenu]) -> Vec<String> {
    submenus.iter().map(|submenu| submenu.title.clone()).collect()
}

fn order(places: &[(&str, usize)]) -> TrayProxyGroupOrder {
    let mut order = TrayProxyGroupOrder::new();
    for (name, place) in places {
        order.insert(name.to_string(), *place);
    }
    order
}

fn build(mode: &str, order: Option<&TrayProxyGroupOrder>) -> Vec<TrayProxySubmenu> {
    TrayProxyMenuBuilder::create_proxy_submenus(
        mode,
        order,
        Some(&proxies()),
        5_000,
        &TrayProxyLatencyController::default(),
        &labels(),
    )
}

#[test]
fn modes_choose_the_groups() {
    assert_eq!(titles(&build("rule", None)), ["z", "a", "m"]);
    assert_eq!(titles(&build("global", None)), ["GLOBAL"]);
    assert_eq!(titles(&build("GLOBAL", None)), ["z", "a", "m"]);
    assert_eq!(titles(&build("", None)), ["z", "a", "m"]);
    assert!(TrayProxyMenuBuilder::create_proxy_submenus(
        "rule",
        None,
        None,
        5_000,
        &TrayProxyLatencyController::default(),
        &labels(),
    )
    .is_empty());
}

#[test]
fn groups_are_hidden_on_request() {
    let shown = |mode, name, proxy: Proxy| TrayProxyMenuBuilder::should_show_group(mode, name, &proxy);
    assert!(shown("rule", "a", group(&[], None, None)));
    assert!(!shown("rule", "a", group(&[], None, Some(true))));
    assert!(!shown("rule", "a", node(1)));
    assert!(!shown("rule", "GLOBAL", group(&["x"], None, None)));
    assert!(!shown("global", "a", group(&["x"], None, None)));
    assert!(shown("global", "GLOBAL", group(&["x"], None, Some(false))));
}

#[test]
fn configured_places_come_first() {
    assert_eq!(titles(&build("rule", Some(&order(&[("m", 0), ("a", 1)])))), ["m", "a", "z"]);
    assert_eq!(titles(&build("rule", Some(&order(&[("m", 9)])))), ["m", "z", "a"]);
    assert_eq!(titles(&build("rule", Some(&order(&[])))), ["z", "a", "m"]);
    assert_eq!(
        titles(&build("rule", Some(&order(&[("m", 2), ("a", 2), ("z", 3)])))),
        ["a", "m", "z"]
    );
    assert_eq!(order(&[("m", 2)]).get("m"), Some(2));
    assert_eq!(order(&[("m", 2)]).get("a"), None);
}

#[test]
fn sorting_agrees_with_a_stable_std_sort() {
    let order = order(&[("b", 1), ("d", 0), ("f", 1)]);
    let names = ["a", "b", "c", "d", "e", "f", "b"];
    for shift in 0..names.len() {
        let mut groups: Vec<(String, usize, usize)> = (0..names.len())
            .map(|i| (names[(i + shift) % names.len()].to_string(), (i * 3) % 7, i))
            .collect();
        let mut expected = groups.clone();
        expected.sort_by(|(a, i, _), (b, j, _)| match (order.get(a), order.get(b)) {
            (Some(x), Some(y)) => x.cmp(&y),
            (Some(_), None) => std::cmp::Ordering::Less,
            (None, Some(_)) => std::cmp::Ordering::Greater,
            (None, None) => i.cmp(j),
        });
        TrayProxyMenuBuilder::sort_submenus(&mut groups, Some(&order));
        assert_eq!(groups, expected);
        let unsorted = groups.clone();
        TrayProxyMenuBuilder::sort_submenus(&mut groups, None);
        assert_eq!(groups, unsorted);
    }
}

#[test]
fn submenus_hold_the_delay_test_and_the_nodes() {
    let submenus = build("rule", None);
    let a = &submenus[1];
    assert_eq!(a.id, "proxy_group_a");
    assert_eq!(a.delay_test.id, "proxy_delay_test:a");
    assert_eq!(a.delay_test.title, "Delay test");
    assert_eq!(a.nodes.len(), 2);
    assert_eq!(a.nodes[0].id, "proxy_node:a:n1");
    assert_eq!(a.nodes[0].title, "n1\t120ms");
    assert!(!a.nodes[0].checked);
    assert_eq!(a.nodes[1].title, "n2\t-");
    assert!(a.nodes[1].checked);
    assert_eq!(
        TrayProxyMenuId::parse(&a.nodes[1].id),
        Some(TrayProxyMenuAction::SelectNode {
            group: "a".into(),
            proxy: "n2".into()
        })
    );
}

#[test]
fn cached_states_reach_the_menu() {
    let mut latency = TrayProxyLatencyController::default();
    latency.set_state("a", "n1", TrayDelayState::Testing);
    latency.set_state("a", "n2", TrayDelayState::Value(7));
    let submenus = TrayProxyMenuBuilder::create_proxy_submenus(
        "rule",
        None,
        Some(&proxies()),
        5_000,
        &latency,
        &labels(),
    );
    assert_eq!(submenus[0].nodes[0].title, "n1\t120ms");
    assert_eq!(submenus[1].nodes[0].title, "n1\tTesting");
    assert_eq!(submenus[1].nodes[1].title, "n2\t7ms");
}

#[test]
fn replaced_proxies_keep_their_place() {
    let mut proxies = Proxies::new();
    proxies.insert("x".into(), node(1));
    proxies.insert("y".into(), node(2));
    proxies.insert("x".into(), node(3));
    assert_eq!(proxies.len(), 2);
    assert_eq!(proxies.name(0), "x");
    assert_eq!(proxies.name(1), "y");
    assert_eq!(proxies.get("x"), Some(&node(3)));
    assert_eq!(proxies.get("w"), None);
}

#[test]
fn entries_that_could_not_be_made_are_left_out() {
    assert_eq!(
        TrayProxyMenuBuilder::created_items(Some(0), vec![Some(1), None, Some(3)]),
        Some(vec![0, 1, 3])
    );
    assert_eq!(TrayProxyMenuBuilder::created_items(None, vec![Some(1)]), None);
    assert_eq!(TrayProxyMenuBuilder::created_items(Some(0), vec![None, None]), None);
    assert_eq!(TrayProxyMenuBuilder::created_items::<u8>(Some(0), Vec::new()), None);
}

fn input(names: &[&str]) -> GroupTestInput {
    GroupTestInput {
        names: names.iter().map(|name| name.to_string()).collect(),
        test_url: "u".into(),
        timeout: 1_000,
    }
}

fn measured(name: &str, delay: Option<u32>) -> GroupTestEvent {
    GroupTestEvent::Measured {
        name: name.into(),
        delay,
    }
}

#[test]
fn a_test_goes_through() {
    let mut controller = TrayProxyLatencyController::default();
    let mut test = GroupDelayTest::new("g");
    assert_eq!(test.group(), "g");
    assert_eq!(
        test.step(&mut controller, GroupTestEvent::Requested),
        GroupTestAction::CollectInput
    );
    assert_eq!(
        test.step(&mut controller, GroupTestEvent::InputReady(input(&["a", "b", "c"]))),
        GroupTestAction::Measure(input(&["a", "b", "c"]))
    );
    let states = test.snapshot(&controller);
    assert_eq!(states.len(), 3);
    assert_eq!(states.get("c"), Some(&TrayDelayState::Testing));
    assert_eq!(test.step(&mut controller, measured("b", Some(77))), GroupTestAction::Refresh);
    assert_eq!(test.step(&mut controller, measured("a", None)), GroupTestAction::Refresh);
    assert_eq!(test.snapshot(&controller).get("c"), Some(&TrayDelayState::Testing));
    assert_eq!(test.step(&mut controller, measured("c", Some(1_000))), GroupTestAction::Refresh);
    assert_eq!(test.step(&mut controller, GroupTestEvent::Drained), GroupTestAction::Finish);
    assert_eq!(controller.state_for_proxy("g", "a", None, 5), TrayDelayState::Error);
    assert_eq!(controller.state_for_proxy("g", "b", None, 5), TrayDelayState::Value(77));
    assert_eq!(controller.state_for_proxy("g", "c", None, 5), TrayDelayState::Timeout);
    assert!(test.snapshot(&controller).is_empty());
}

#[test]
fn a_second_test_of_a_group_is_skipped() {
    let mut controller = TrayProxyLatencyController::default();
    let mut first = GroupDelayTest::new("g");
    first.step(&mut controller, GroupTestEvent::Requested);
    let mut second = GroupDelayTest::new("g");
    assert_eq!(
        second.step(&mut controller, GroupTestEvent::Requested),
        GroupTestAction::Skip
    );
    assert_eq!(
        second.step(&mut controller, GroupTestEvent::Requested),
        GroupTestAction::Ignore
    );
    let mut other = GroupDelayTest::new("h");
    assert_eq!(
        other.step(&mut controller, GroupTestEvent::Requested),
        GroupTestAction::CollectInput
    );
    assert_eq!(
        first.step(&mut controller, GroupTestEvent::InputFailed),
        GroupTestAction::Fail
    );
    assert!(controller.begin_group_test("g"));
    assert!(!controller.begin_group_test("h"));
    controller.end_group_test("h");
    assert!(controller.begin_group_test("h"));
}

#[test]
fn a_group_without_nodes_has_nothing_to_test() {
    let mut controller = TrayProxyLatencyController::default();
    let mut test = GroupDelayTest::new("g");
    assert_eq!(
        test.step(&mut controller, GroupTestEvent::InputReady(input(&["a"]))),
        GroupTestAction::Ignore
    );
    test.step(&mut controller, GroupTestEvent::Requested);
    assert_eq!(
        test.step(&mut controller, measured("a", Some(1))),
        GroupTestAction::Ignore
    );
    assert_eq!(
        test.step(&mut controller, GroupTestEvent::InputReady(input(&[]))),
        GroupTestAction::NothingToTest
    );
    assert_eq!(test.step(&mut controller, GroupTestEvent::Drained), GroupTestAction::Ignore);
    assert!(controller.begin_group_test("g"));
    assert_eq!(controller.state_for_proxy("g", "a", None, 5), TrayDelayState::Unknown);
}
