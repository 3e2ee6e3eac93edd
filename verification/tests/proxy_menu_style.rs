//! Styling of node titles.
use tray_proxy::decimal::parse_u32;
use tray_proxy::delay::{
    TrayDelayColor, TrayDelayDisplay, TrayDelayFormatter, TrayDelayState, TrayLabels,
};
use tray_proxy::style::{TrayColoredRange, TrayProxyMenuStyler};

fn labels() -> TrayLabels {
    TrayLabels {
        delay_test: "延迟测试".into(),
        testing: "测试中".into(),
        timeout: "超时".into(),
        error: "错误".into(),
    }
}

#[test]
fn title_parts_keep_delay_after_tab() {
    let parts = TrayDelayFormatter::node_title(
        "节点 A",
        &TrayDelayDisplay {
            text: "88ms".into(),
            color: TrayDelayColor::Success,
        },
    );
    assert!(parts.title.contains('\t'));
    assert_eq!(parts.delay_start, "节点 A\t".encode_utf16().count());
    assert_eq!(parts.delay_len, "88ms".encode_utf16().count());
}

#[test]
fn delay_text_reads_back() {
    let labels = labels();
    let states = [
        TrayDelayState::Unknown,
        TrayDelayState::Testing,
        TrayDelayState::Timeout,
        TrayDelayState::Error,
        TrayDelayState::Value(0),
        TrayDelayState::Value(88),
        TrayDelayState::Value(u32::MAX),
    ];
    for state in states {
        let text = TrayDelayFormatter::display(state, &labels).text;
        assert_eq!(TrayProxyMenuStyler::state_from_delay_text(&text, &labels), state);
    }
}

#[test]
fn odd_delay_texts_are_read_as_numbers_are() {
    let labels = labels();
    let read = |text| TrayProxyMenuStyler::state_from_delay_text(text, &labels);
    assert_eq!(read("12"), TrayDelayState::Value(12));
    assert_eq!(read("+12msms"), TrayDelayState::Value(12));
    assert_eq!(read("0012ms"), TrayDelayState::Value(12));
    assert_eq!(read("4294967296ms"), TrayDelayState::Error);
    assert_eq!(read("-1ms"), TrayDelayState::Error);
    assert_eq!(read("ms"), TrayDelayState::Error);
    assert_eq!(read("12 ms"), TrayDelayState::Error);
    assert_eq!(read("-ms"), TrayDelayState::Error);
    assert_eq!(read(""), TrayDelayState::Error);
}

#[test]
fn numbers_are_parsed_as_std_parses_them() {
    let texts = [
        "", "+", "-", "0", "+0", "-0", "7", "007", "++1", "1+", " 1", "1 ", "4294967295",
        "4294967296", "00000000004294967295", "99999999999999999999", "٣", "1_0",
    ];
    for text in texts {
        assert_eq!(parse_u32(text), text.parse::<u32>().ok());
    }
}

#[test]
fn node_titles_get_their_color() {
    let labels = labels();
    let styled = TrayProxyMenuStyler::style_item("🇭🇰 A\t88ms", &labels).unwrap();
    assert_eq!(styled.title, "🇭🇰 A\t88ms");
    assert_eq!(styled.full_len, 11);
    assert_eq!(
        styled.colored,
        Some(TrayColoredRange {
            start: 7,
            len: 4,
            color: TrayDelayColor::Success
        })
    );
    let unknown = TrayProxyMenuStyler::style_item("A\t-", &labels).unwrap();
    assert_eq!(unknown.title, "A\t-");
    assert_eq!(unknown.colored, None);
}

#[test]
fn the_last_tab_separates_the_delay() {
    let labels = labels();
    let styled = TrayProxyMenuStyler::style_item("a\tb\t超时", &labels).unwrap();
    assert_eq!(styled.title, "a\tb\t超时");
    assert_eq!(
        styled.colored,
        Some(TrayColoredRange {
            start: 4,
            len: 2,
            color: TrayDelayColor::Error
        })
    );
}

#[test]
fn unreadable_delays_become_errors() {
    let styled = TrayProxyMenuStyler::style_item("A\t??", &labels()).unwrap();
    assert_eq!(styled.title, "A\t错误");
    assert_eq!(
        styled.colored,
        Some(TrayColoredRange {
            start: 2,
            len: 2,
            color: TrayDelayColor::Error
        })
    );
}

#[test]
fn titles_without_tab_are_left_alone() {
    assert_eq!(TrayProxyMenuStyler::style_item("Quit", &labels()), None);
    assert_eq!(TrayProxyMenuStyler::style_item("", &labels()), None);
}

#[test]
fn equal_words_of_one_color_keep_their_look() {
    let mut labels = labels();
    labels.error = labels.timeout.clone();
    assert_eq!(
        TrayProxyMenuStyler::state_from_delay_text(&labels.error, &labels),
        TrayDelayState::Timeout
    );
    let styled = TrayProxyMenuStyler::style_item("A\t超时", &labels).unwrap();
    assert_eq!(styled.title, "A\t超时");
    assert_eq!(styled.colored.unwrap().color, TrayDelayColor::Error);
}
