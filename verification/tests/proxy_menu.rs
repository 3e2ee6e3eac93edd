//! Menu identifiers, delay formatting, the latency cache and the settings.
use tray_proxy::config::{
    resolve_latency_test_url, resolve_latency_timeout_from_config, trim,
    DEFAULT_LATENCY_TEST_URL, DEFAULT_LATENCY_TIMEOUT_MS, TRAY_DELAY_TEST_CONCURRENCY,
};
use tray_proxy::delay::{
    TrayDelayColor, TrayDelayDisplay, TrayDelayFormatter, TrayDelayState, TrayLabels,
};
use tray_proxy::latency::TrayProxyLatencyController;
use tray_proxy::menu::TrayProxyMenuBuilder;
use tray_proxy::menu_id::{TrayProxyMenuAction, TrayProxyMenuId};
use tray_proxy::proxies::{DelayHistory, Proxies, Proxy};

fn labels() -> TrayLabels {
    TrayLabels {
        delay_test: "Delay test".into(),
        testing: "Testing".into(),
        timeout: "Timeout".into(),
        error: "Error".into(),
    }
}

fn node(delays: &[u32]) -> Proxy {
    Proxy {
        all: None,
        now: None,
        hidden: None,
        history: delays.iter().map(|delay| DelayHistory { delay: *delay }).collect(),
    }
}

#[test]
fn menu_id_roundtrips_special_names() {
    let id = TrayProxyMenuId::node("自动_选择:组", "节点_1/香港");
    assert_eq!(
        TrayProxyMenuId::parse(&id),
        Some(TrayProxyMenuAction::SelectNode {
            group: "自动_选择:组".into(),
            proxy: "节点_1/香港".into(),
        })
    );
}

#[test]
fn delay_test_id_roundtrips_group_name() {
    let id = TrayProxyMenuId::delay_test("节点选择_A:B");
    assert_eq!(
        TrayProxyMenuId::parse(&id),
        Some(TrayProxyMenuAction::TestGroupDelay {
            group: "节点选择_A:B".into(),
        })
    );
}

#[test]
fn delay_state_maps_text_and_color() {
    let labels = labels();
    assert_eq!(
        TrayDelayFormatter::display(TrayDelayState::Value(80), &labels).color,
        TrayDelayColor::Success
    );
    assert_eq!(
        TrayDelayFormatter::display(TrayDelayState::Value(260), &labels).color,
        TrayDelayColor::Primary
    );
    assert_eq!(
        TrayDelayFormatter::display(TrayDelayState::Value(450), &labels).color,
        TrayDelayColor::Warning
    );
    assert_eq!(
        TrayDelayFormatter::display(TrayDelayState::Timeout, &labels).color,
        TrayDelayColor::Error
    );
}

#[test]
fn delay_state_respects_timeout_and_error() {
    assert_eq!(
        TrayDelayFormatter::state_from_delay(0, 10_000),
        TrayDelayState::Timeout
    );
    assert_eq!(
        TrayDelayFormatter::state_from_delay(10_000, 10_000),
        TrayDelayState::Timeout
    );
    assert_eq!(
        TrayDelayFormatter::state_from_delay(100_001, 10_000),
        TrayDelayState::Error
    );
}

#[test]
fn node_title_uses_tab_and_delay_range() {
    let display = TrayDelayDisplay {
        text: "123ms".into(),
        color: TrayDelayColor::Success,
    };
    let parts = TrayDelayFormatter::node_title("HK Node", &display);
    assert_eq!(parts.title, "HK Node\t123ms");
    assert_eq!(parts.delay_start, "HK Node\t".encode_utf16().count());
    assert_eq!(parts.delay_len, "123ms".encode_utf16().count());
}

#[test]
fn node_title_delay_range_uses_utf16_for_unicode_title() {
    let display = TrayDelayDisplay {
        text: "测试中".into(),
        color: TrayDelayColor::Primary,
    };
    let parts = TrayDelayFormatter::node_title("香港_节点", &display);
    assert_eq!(parts.title, "香港_节点\t测试中");
    assert_eq!(parts.delay_start, "香港_节点\t".encode_utf16().count());
    assert_eq!(parts.delay_len, "测试中".encode_utf16().count());
}

#[test]
fn proxy_group_item_ids_put_delay_test_first() {
    let ids = TrayProxyMenuBuilder::group_item_ids_for_test(
        "自动_选择:组",
        &["节点_1".into(), "节点:2".into()],
    );
    assert_eq!(ids.first(), Some(&TrayProxyMenuId::delay_test("自动_选择:组")));
    assert_eq!(
        TrayProxyMenuId::parse(&ids[1]),
        Some(TrayProxyMenuAction::SelectNode {
            group: "自动_选择:组".into(),
            proxy: "节点_1".into(),
        })
    );
}

#[test]
fn latency_controller_refreshes_testing_done_and_error_states() {
    let mut controller = TrayProxyLatencyController::default();
    let names = vec!["节点_A".to_string()];

    controller.mark_group_testing("自动选择", &names);
    assert_eq!(
        controller.state_for_proxy("自动选择", "节点_A", None, DEFAULT_LATENCY_TIMEOUT_MS),
        TrayDelayState::Testing
    );

    controller.set_state("自动选择", "节点_A", TrayDelayState::Value(88));
    assert_eq!(
        controller.state_for_proxy("自动选择", "节点_A", None, DEFAULT_LATENCY_TIMEOUT_MS),
        TrayDelayState::Value(88)
    );

    controller.set_state("自动选择", "节点_A", TrayDelayState::Error);
    assert_eq!(
        controller.state_for_proxy("自动选择", "节点_A", None, DEFAULT_LATENCY_TIMEOUT_MS),
        TrayDelayState::Error
    );
}

#[test]
fn ids_are_percent_encoded() {
    assert_eq!(
        TrayProxyMenuId::node("a_b:c", "x/~1"),
        "proxy_node:a%5Fb%3Ac:x%2F%7E1"
    );
    assert_eq!(
        TrayProxyMenuId::delay_test("é 😀"),
        "proxy_delay_test:%C3%A9%20%F0%9F%98%80"
    );
    assert_eq!(TrayProxyMenuId::group("a_b:c"), "proxy_group_a_b:c");
    assert_eq!(TrayProxyMenuId::node("", ""), "proxy_node::");
}

#[test]
fn ids_of_every_ascii_character_round_trip() {
    for byte in 0u8..128 {
        let name = format!("{}%{}", char::from(byte), char::from(byte));
        assert_eq!(
            TrayProxyMenuId::parse(&TrayProxyMenuId::node(&name, &name)),
            Some(TrayProxyMenuAction::SelectNode {
                group: name.clone(),
                proxy: name,
            })
        );
    }
}

#[test]
fn foreign_ids_have_no_action() {
    assert_eq!(TrayProxyMenuId::parse(""), None);
    assert_eq!(TrayProxyMenuId::parse("quit"), None);
    assert_eq!(TrayProxyMenuId::parse("proxy_node"), None);
    assert_eq!(TrayProxyMenuId::parse("proxy_node:abc"), None);
    assert_eq!(TrayProxyMenuId::parse("proxy_node:%FF:a"), None);
    assert_eq!(TrayProxyMenuId::parse("proxy_node:a:%FF"), None);
    assert_eq!(TrayProxyMenuId::parse("proxy_delay_test:%C3"), None);
    assert_eq!(TrayProxyMenuId::parse(&TrayProxyMenuId::group("a")), None);
}

#[test]
fn loose_ids_are_decoded() {
    assert_eq!(
        TrayProxyMenuId::parse("proxy_node:a%2fb:c:d%zz%4"),
        Some(TrayProxyMenuAction::SelectNode {
            group: "a/b".into(),
            proxy: "c:d%zz%4".into(),
        })
    );
    assert_eq!(
        TrayProxyMenuId::parse("proxy_delay_test:a:b"),
        Some(TrayProxyMenuAction::TestGroupDelay { group: "a:b".into() })
    );
}

#[test]
fn entries_with_other_meaning_have_other_ids() {
    assert_ne!(
        TrayProxyMenuId::node("a:b", "c"),
        TrayProxyMenuId::node("a", "b:c")
    );
    assert_ne!(
        TrayProxyMenuId::node("a", "b"),
        TrayProxyMenuId::delay_test("a")
    );
}

#[test]
fn every_state_has_its_text() {
    let labels = labels();
    let shown = |state| TrayDelayFormatter::display(state, &labels);
    assert_eq!(
        shown(TrayDelayState::Unknown),
        TrayDelayDisplay {
            text: "-".into(),
            color: TrayDelayColor::Default
        }
    );
    assert_eq!(
        shown(TrayDelayState::Testing),
        TrayDelayDisplay {
            text: "Testing".into(),
            color: TrayDelayColor::Primary
        }
    );
    assert_eq!(
        shown(TrayDelayState::Timeout),
        TrayDelayDisplay {
            text: "Timeout".into(),
            color: TrayDelayColor::Error
        }
    );
    assert_eq!(
        shown(TrayDelayState::Error),
        TrayDelayDisplay {
            text: "Error".into(),
            color: TrayDelayColor::Error
        }
    );
    assert_eq!(shown(TrayDelayState::Value(0)).text, "0ms");
    assert_eq!(shown(TrayDelayState::Value(1907)).text, "1907ms");
    assert_eq!(shown(TrayDelayState::Value(u32::MAX)).text, "4294967295ms");
}

#[test]
fn colors_change_at_their_limits() {
    assert_eq!(TrayDelayFormatter::delay_color(0), TrayDelayColor::Success);
    assert_eq!(TrayDelayFormatter::delay_color(249), TrayDelayColor::Success);
    assert_eq!(TrayDelayFormatter::delay_color(250), TrayDelayColor::Primary);
    assert_eq!(TrayDelayFormatter::delay_color(399), TrayDelayColor::Primary);
    assert_eq!(TrayDelayFormatter::delay_color(400), TrayDelayColor::Warning);
    assert_eq!(TrayDelayFormatter::delay_color(9_999), TrayDelayColor::Warning);
    assert_eq!(TrayDelayFormatter::delay_color(10_000), TrayDelayColor::Error);
}

#[test]
fn measured_delays_change_state_at_their_limits() {
    assert_eq!(
        TrayDelayFormatter::state_from_delay(1, 5_000),
        TrayDelayState::Value(1)
    );
    assert_eq!(
        TrayDelayFormatter::state_from_delay(4_999, 5_000),
        TrayDelayState::Value(4_999)
    );
    assert_eq!(
        TrayDelayFormatter::state_from_delay(5_000, 5_000),
        TrayDelayState::Timeout
    );
    assert_eq!(
        TrayDelayFormatter::state_from_delay(100_000, 5_000),
        TrayDelayState::Timeout
    );
    assert_eq!(
        TrayDelayFormatter::state_from_delay(100_000, 200_000),
        TrayDelayState::Value(100_000)
    );
    assert_eq!(
        TrayDelayFormatter::state_from_delay(150_000, 200_000),
        TrayDelayState::Error
    );
    assert_eq!(TrayDelayFormatter::state_from_delay(0, 0), TrayDelayState::Timeout);
}

#[test]
fn utf16_length_counts_surrogate_pairs() {
    assert_eq!(TrayDelayFormatter::utf16_len(""), 0);
    assert_eq!(TrayDelayFormatter::utf16_len("a香"), 2);
    assert_eq!(TrayDelayFormatter::utf16_len("🇭🇰 HK\u{ffff}\u{10000}"), "🇭🇰 HK\u{ffff}\u{10000}".encode_utf16().count());
    let display = TrayDelayDisplay {
        text: "9ms".into(),
        color: TrayDelayColor::Success,
    };
    let parts = TrayDelayFormatter::node_title("🇭🇰", &display);
    assert_eq!(parts.delay_start, 5);
    assert_eq!(parts.delay_len, 3);
    assert_eq!(parts.delay_start + parts.delay_len, parts.title.encode_utf16().count());
}

#[test]
fn timeout_setting_falls_back_to_default() {
    assert_eq!(resolve_latency_timeout_from_config(None), 10_000);
    assert_eq!(resolve_latency_timeout_from_config(Some(0)), 10_000);
    assert_eq!(resolve_latency_timeout_from_config(Some(-5)), 10_000);
    assert_eq!(resolve_latency_timeout_from_config(Some(1)), 1);
    assert_eq!(resolve_latency_timeout_from_config(Some(i16::MAX)), 32_767);
    assert_eq!(TRAY_DELAY_TEST_CONCURRENCY, 10);
}

#[test]
fn url_setting_is_trimmed_and_falls_back_to_default() {
    assert_eq!(DEFAULT_LATENCY_TEST_URL, "http://cp.cloudflare.com/generate_204");
    assert_eq!(resolve_latency_test_url(None), DEFAULT_LATENCY_TEST_URL);
    assert_eq!(resolve_latency_test_url(Some("")), DEFAULT_LATENCY_TEST_URL);
    assert_eq!(resolve_latency_test_url(Some(" \t\u{3000}\n")), DEFAULT_LATENCY_TEST_URL);
    assert_eq!(
        resolve_latency_test_url(Some("\u{a0} http://a b/ \r\n")),
        "http://a b/"
    );
    assert_eq!(resolve_latency_test_url(Some("x")), "x");
    assert_eq!(resolve_latency_test_url(Some(" u ")), "u");
    for text in ["", " ", "a", " a", "a ", "\u{85}越 b\u{2029}", "\u{200b}a"] {
        assert_eq!(trim(text), text.trim());
    }
}

#[test]
fn exactly_white_space_is_trimmed() {
    let white_space: Vec<char> = ('\u{9}'..='\u{d}')
        .chain([' ', '\u{85}', '\u{a0}', '\u{1680}'])
        .chain('\u{2000}'..='\u{200a}')
        .chain(['\u{2028}', '\u{2029}', '\u{202f}', '\u{205f}', '\u{3000}'])
        .collect();
    for c in '\0'..=char::MAX {
        let is_trimmed = trim(c.encode_utf8(&mut [0; 4])).is_empty();
        assert_eq!(is_trimmed, white_space.contains(&c), "{c:?}");
    }
}

#[test]
fn history_is_used_without_a_cached_state() {
    let mut controller = TrayProxyLatencyController::default();
    let tested = node(&[700, 120]);
    assert_eq!(
        controller.state_for_proxy("g", "a", Some(&tested), 5_000),
        TrayDelayState::Value(120)
    );
    assert_eq!(
        controller.state_for_proxy("g", "a", Some(&tested), 100),
        TrayDelayState::Timeout
    );
    assert_eq!(
        controller.state_for_proxy("g", "a", Some(&node(&[120, 0])), 5_000),
        TrayDelayState::Timeout
    );
    assert_eq!(
        controller.state_for_proxy("g", "a", Some(&node(&[])), 5_000),
        TrayDelayState::Unknown
    );
    controller.set_state("g", "a", TrayDelayState::Testing);
    assert_eq!(
        controller.state_for_proxy("g", "a", Some(&tested), 5_000),
        TrayDelayState::Testing
    );
    assert_eq!(
        controller.state_for_proxy("h", "a", Some(&tested), 5_000),
        TrayDelayState::Value(120)
    );
}

#[test]
fn snapshot_holds_known_nodes_only() {
    let mut controller = TrayProxyLatencyController::default();
    controller.set_state("g", "a", TrayDelayState::Value(1));
    controller.set_state("g", "b", TrayDelayState::Error);
    controller.set_state("h", "c", TrayDelayState::Timeout);
    let names = vec!["b".to_string(), "c".to_string(), "b".to_string()];
    let states = controller.group_state_snapshot("g", &names);
    assert_eq!(states.len(), 1);
    assert_eq!(states.get("b"), Some(&TrayDelayState::Error));
    assert_eq!(states.get("a"), None);
    assert_eq!(states.get("c"), None);
    assert_eq!(TrayProxyLatencyController::cache_key("g", "a"), "g::a");
}

#[test]
fn test_input_comes_from_group_and_settings() {
    let mut proxies = Proxies::new();
    proxies.insert(
        "g".into(),
        Proxy {
            all: Some(vec!["a".into(), "b".into()]),
            now: None,
            hidden: None,
            history: Vec::new(),
        },
    );
    proxies.insert("a".into(), node(&[]));
    let input =
        TrayProxyLatencyController::collect_group_test_input("g", &proxies, Some(" u "), Some(7));
    assert_eq!(input.names, vec!["a".to_string(), "b".to_string()]);
    assert_eq!(input.test_url, "u");
    assert_eq!(input.timeout, 7);
    let of_node = TrayProxyLatencyController::collect_group_test_input("a", &proxies, None, None);
    assert!(of_node.names.is_empty());
    assert_eq!(of_node.test_url, DEFAULT_LATENCY_TEST_URL);
    assert_eq!(of_node.timeout, DEFAULT_LATENCY_TIMEOUT_MS);
    let missing = TrayProxyLatencyController::collect_group_test_input("x", &proxies, None, None);
    assert!(missing.names.is_empty());
}
