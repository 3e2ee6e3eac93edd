//! Speed of the proxied connections, and the task that shows it.
use tray_proxy::speed::{Connection, ProxyConnectionSpeed, ProxyConnectionSpeedSampler};
use tray_proxy::speed_task::{
    TraySpeedAction, TraySpeedController, TraySpeedLoop, TraySpeedReading, TraySpeedRound,
    TraySpeedSituation, TRAY_SPEED_SAMPLE_INTERVAL_SECS,
};

fn connection(id: &str, chain: &str, upload: u64, download: u64) -> Connection {
    Connection {
        id: id.into(),
        chains: vec![chain.into()],
        upload,
        download,
    }
}

#[test]
fn sampler_ignores_first_frame_and_counts_proxy_delta() {
    let mut sampler = ProxyConnectionSpeedSampler::new();
    assert_eq!(
        sampler.sample(&[connection("1", "HK", 100, 200)]),
        ProxyConnectionSpeed { up: 0, down: 0 }
    );
    assert_eq!(
        sampler.sample(&[connection("1", "HK", 180, 260)]),
        ProxyConnectionSpeed { up: 80, down: 60 }
    );
}

#[test]
fn sampler_excludes_direct_and_reject_connections() {
    let mut sampler = ProxyConnectionSpeedSampler::new();
    sampler.sample(&[
        connection("1", "DIRECT", 100, 200),
        connection("2", "REJECT", 100, 200),
        connection("3", "REJECT-DROP", 100, 200),
    ]);
    assert_eq!(
        sampler.sample(&[
            connection("1", "DIRECT", 200, 400),
            connection("2", "REJECT", 200, 400),
            connection("3", "REJECT-DROP", 200, 400),
        ]),
        ProxyConnectionSpeed { up: 0, down: 0 }
    );
}

#[test]
fn sampler_handles_counter_reset() {
    let mut sampler = ProxyConnectionSpeedSampler::new();
    sampler.sample(&[connection("1", "HK", 200, 200)]);
    assert_eq!(
        sampler.sample(&[connection("1", "HK", 100, 50)]),
        ProxyConnectionSpeed { up: 0, down: 0 }
    );
}

#[test]
fn sampler_drops_disappeared_connections() {
    let mut sampler = ProxyConnectionSpeedSampler::new();
    sampler.sample(&[connection("1", "HK", 100, 200)]);
    assert_eq!(sampler.sample(&[]), ProxyConnectionSpeed { up: 0, down: 0 });
    assert_eq!(
        sampler.sample(&[connection("1", "HK", 180, 260)]),
        ProxyConnectionSpeed { up: 0, down: 0 }
    );
    assert_eq!(
        sampler.sample(&[connection("1", "HK", 220, 300)]),
        ProxyConnectionSpeed { up: 40, down: 40 }
    );
}

#[test]
fn exits_are_told_apart_in_any_case() {
    let proxied = |chain| ProxyConnectionSpeedSampler::is_proxy_connection(&connection("1", chain, 0, 0));
    assert!(!proxied("direct"));
    assert!(!proxied("Reject-Drop"));
    assert!(!proxied("rEJECT"));
    assert!(proxied("REJECT-"));
    assert!(proxied("DIRECT "));
    assert!(proxied("dırect"));
    assert!(proxied("DIRECT`"));
    assert!(proxied(""));
    let unchained = Connection {
        id: "1".into(),
        chains: Vec::new(),
        upload: 0,
        download: 0,
    };
    assert!(!ProxyConnectionSpeedSampler::is_proxy_connection(&unchained));
    let through = Connection {
        id: "1".into(),
        chains: vec!["HK".into(), "DIRECT".into()],
        upload: 0,
        download: 0,
    };
    assert!(ProxyConnectionSpeedSampler::is_proxy_connection(&through));
}

#[test]
fn a_connection_that_turns_to_a_proxy_counts_from_there() {
    let mut sampler = ProxyConnectionSpeedSampler::new();
    sampler.sample(&[connection("1", "DIRECT", 100, 100)]);
    assert_eq!(
        sampler.sample(&[connection("1", "HK", 130, 150)]),
        ProxyConnectionSpeed { up: 30, down: 50 }
    );
}

#[test]
fn connections_add_up() {
    let mut sampler = ProxyConnectionSpeedSampler::new();
    sampler.sample(&[connection("1", "HK", 1, 2), connection("2", "JP", 10, 20)]);
    assert_eq!(
        sampler.sample(&[
            connection("2", "JP", 15, 20),
            connection("3", "US", 1000, 1000),
            connection("1", "HK", 2, 5),
        ]),
        ProxyConnectionSpeed { up: 6, down: 3 }
    );
}

#[test]
fn repeated_ids_are_compared_in_turn() {
    let mut sampler = ProxyConnectionSpeedSampler::default();
    assert_eq!(
        sampler.sample(&[connection("1", "HK", 5, 5), connection("1", "HK", 9, 6)]),
        ProxyConnectionSpeed { up: 4, down: 1 }
    );
}

#[test]
fn totals_that_do_not_fit_give_no_speed() {
    let mut sampler = ProxyConnectionSpeedSampler::new();
    sampler.sample(&[connection("1", "HK", 0, 0), connection("2", "HK", 0, 0)]);
    assert_eq!(
        sampler.checked_sample(&[
            connection("1", "HK", u64::MAX, 0),
            connection("2", "HK", 1, 0),
        ]),
        None
    );
    assert_eq!(
        sampler.checked_sample(&[connection("2", "HK", 3, 4)]),
        Some(ProxyConnectionSpeed { up: 2, down: 4 })
    );
}

fn situation(is_exiting: bool, has_main_tray: bool, is_finished: bool) -> TraySpeedSituation {
    TraySpeedSituation {
        is_exiting,
        has_main_tray,
        is_finished,
    }
}

#[test]
fn task_is_started_once() {
    let mut controller: TraySpeedController<u32> = TraySpeedController::new();
    assert_eq!(controller.update_task(true, situation(true, true, false)), TraySpeedAction::Keep);
    assert_eq!(
        controller.update_task(true, situation(false, false, false)),
        TraySpeedAction::ReportNoTray
    );
    assert_eq!(controller.update_task(true, situation(false, true, false)), TraySpeedAction::Spawn);
    controller.task_started(7);
    assert_eq!(controller.task(), Some(&7));
    assert_eq!(controller.update_task(true, situation(false, true, false)), TraySpeedAction::Keep);
    assert_eq!(controller.update_task(true, situation(false, true, true)), TraySpeedAction::Spawn);
}

#[test]
fn task_is_given_up_when_switched_off() {
    let mut controller: TraySpeedController<u32> = TraySpeedController::default();
    assert_eq!(
        controller.update_task(false, situation(false, true, false)),
        TraySpeedAction::Stop(None)
    );
    controller.task_started(7);
    assert_eq!(
        controller.update_task(false, situation(true, false, false)),
        TraySpeedAction::Stop(Some(7))
    );
    assert_eq!(controller.task(), None);
    assert_eq!(controller.update_task(true, situation(false, true, false)), TraySpeedAction::Spawn);
}

#[test]
fn rounds_end_with_the_application_or_the_tray() {
    assert_eq!(TraySpeedLoop::begin_round(true, true), TraySpeedRound::Exit);
    assert_eq!(TraySpeedLoop::begin_round(true, false), TraySpeedRound::Exit);
    assert_eq!(TraySpeedLoop::begin_round(false, false), TraySpeedRound::TrayGone);
    assert_eq!(TraySpeedLoop::begin_round(false, true), TraySpeedRound::Fetch);
    assert_eq!(TRAY_SPEED_SAMPLE_INTERVAL_SECS, 1);
}

#[test]
fn a_failed_reading_shows_zero_and_forgets_nothing() {
    let mut rounds = TraySpeedLoop::new();
    let frame = |up, down| TraySpeedReading::Connections(Some(vec![connection("1", "HK", up, down)]));
    assert_eq!(rounds.read(frame(10, 10)), Some(ProxyConnectionSpeed { up: 0, down: 0 }));
    assert_eq!(
        rounds.read(TraySpeedReading::Failed),
        Some(ProxyConnectionSpeed { up: 0, down: 0 })
    );
    assert_eq!(rounds.read(frame(15, 11)), Some(ProxyConnectionSpeed { up: 5, down: 1 }));
    assert_eq!(
        rounds.read(TraySpeedReading::Connections(None)),
        Some(ProxyConnectionSpeed { up: 0, down: 0 })
    );
    assert_eq!(rounds.read(frame(99, 99)), Some(ProxyConnectionSpeed { up: 0, down: 0 }));
}
