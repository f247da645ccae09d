use std::cell::RefCell;
use std::rc::Rc;

use odss2dash::config::{Config, TethysDashConfig};
use odss2dash::dispatched_info::DispatchedInfo;
use odss2dash::dispatcher::{
    DispatchSignal, DispatchStep, Dispatcher, ReportedEntry, ReportedMap,
};
use odss2dash::platform_info::PlatformInfo;
use odss2dash::tethysdash_client::XEvent;
use odss2dash::trackdb_client::{PlatformRes, Position, PositionsResponse};

type Deliveries = Rc<RefCell<Vec<(String, u64)>>>;

fn subscriber(name: &str) -> TethysDashConfig {
    TethysDashConfig {
        name: String::from(name),
        api: format!("https://{name}.example.net/TethysDash/api"),
        api_key: String::from("SECRET-REDACTED"),
    }
}

fn config_with(subscribers: Vec<TethysDashConfig>) -> Config {
    Config {
        odss_api: String::from("https://odss.example.net/odss"),
        external_url: String::from("https://relay.example.net/odss2dash"),
        port: 3033,
        poll_period_ms: 30_000,
        default_last_number_of_fixes: 5,
        tethysdashes: subscribers,
    }
}

fn platform(id: &str, name: &str) -> PlatformRes {
    PlatformRes {
        _id: String::from(id),
        name: String::from(name),
        abbreviation: String::from(name),
        platform_type: Some(String::from("auv")),
        color: None,
        icon_url: None,
    }
}

fn position(time_ms: u64) -> Position {
    Position { time_ms, lat_bits: 0, lon_bits: 0 }
}

/// A poster that records each delivery and fails for subscribers whose name
/// starts with "bad".
fn recording_poster(
    deliveries: Deliveries,
) -> impl Fn(TethysDashConfig, XEvent) -> Result<(), String> {
    move |cfg: TethysDashConfig, ev: XEvent| {
        deliveries
            .borrow_mut()
            .push((cfg.name.clone(), ev.position.time_ms));
        if cfg.name.starts_with("bad") {
            Err(format!("POST {}: connection refused", cfg.api))
        } else {
            Ok(())
        }
    }
}

#[test]
fn monotonic_watermark_scenario() {
    let deliveries: Deliveries = Rc::new(RefCell::new(Vec::new()));
    let config = config_with(vec![subscriber("dash")]);
    let dispatcher = Dispatcher::new(recording_poster(deliveries.clone()), &config);

    let mut reported = ReportedMap::new_empty();
    reported.set_last_ts(&String::from("aku"), 3);

    let count = dispatcher.report_positions(
        &mut reported,
        &platform("aku", "Aku"),
        vec![position(5), position(3), position(9), position(1)],
    );

    assert_eq!(count, 2);
    assert_eq!(reported.get_last_ts("aku"), 9);
    let delivered: Vec<u64> = deliveries.borrow().iter().map(|(_, t)| *t).collect();
    assert_eq!(delivered, vec![5, 9]);
}

#[test]
fn no_redelivery_after_watermark_advance() {
    let deliveries: Deliveries = Rc::new(RefCell::new(Vec::new()));
    let config = config_with(vec![subscriber("dash")]);
    let dispatcher = Dispatcher::new(recording_poster(deliveries.clone()), &config);

    let source = vec![position(5), position(3), position(9), position(1)];
    let mut reported = ReportedMap::new_empty();
    reported.set_last_ts(&String::from("aku"), 3);

    let first = dispatcher.report_positions(&mut reported, &platform("aku", "Aku"), source.clone());
    assert_eq!(first, 2);
    assert_eq!(reported.get_last_ts("aku"), 9);

    // the same source response again: everything is at or behind the watermark
    let second = dispatcher.report_positions(&mut reported, &platform("aku", "Aku"), source);
    assert_eq!(second, 0);
    assert_eq!(reported.get_last_ts("aku"), 9);
    assert_eq!(deliveries.borrow().len(), 2);
}

#[test]
fn fanout_isolation_with_failing_subscriber() {
    let deliveries: Deliveries = Rc::new(RefCell::new(Vec::new()));
    let config = config_with(vec![subscriber("bad-dash"), subscriber("good-dash")]);
    let dispatcher = Dispatcher::new(recording_poster(deliveries.clone()), &config);

    let mut reported = ReportedMap::new_empty();
    let count = dispatcher.report_positions(
        &mut reported,
        &platform("aku", "Aku"),
        vec![position(7)],
    );

    // the failing subscriber does not stop the succeeding one, nor does it
    // change the processed count
    assert_eq!(count, 1);
    let all = deliveries.borrow();
    assert_eq!(
        *all,
        vec![(String::from("bad-dash"), 7), (String::from("good-dash"), 7)]
    );
}

#[test]
fn end_to_end_scenario() {
    let deliveries: Deliveries = Rc::new(RefCell::new(Vec::new()));
    let config = config_with(vec![subscriber("good-dash"), subscriber("bad-dash")]);
    let dispatcher = Dispatcher::new(recording_poster(deliveries.clone()), &config);

    let mut registry = DispatchedInfo::empty();
    registry.add_platform_id(&String::from("A"));
    let mut cache = PlatformInfo::default();
    cache.update_platform(&platform("A", "Platform A"));
    let mut reported = ReportedMap::new_empty();

    let fetch = |platform_id: String| -> Option<PositionsResponse> {
        Some(PositionsResponse {
            platform_id,
            platform_name: None,
            positions: vec![position(100), position(200)],
        })
    };

    let count = dispatcher.dispatch_one(&fetch, &cache, &registry, &mut reported);
    assert_eq!(count, 2);
    assert_eq!(reported.get_last_ts("A"), 200);
    // both positions were attempted against both subscribers, in ascending
    // order per subscriber pass
    let all = deliveries.borrow().clone();
    assert_eq!(
        all,
        vec![
            (String::from("good-dash"), 100),
            (String::from("bad-dash"), 100),
            (String::from("good-dash"), 200),
            (String::from("bad-dash"), 200),
        ]
    );
    drop(all);

    // a second cycle with the identical source response processes nothing
    let again = dispatcher.dispatch_one(&fetch, &cache, &registry, &mut reported);
    assert_eq!(again, 0);
    assert_eq!(reported.get_last_ts("A"), 200);
    assert_eq!(deliveries.borrow().len(), 4);
}

#[test]
fn reregistration_does_not_reset_watermark() {
    let deliveries: Deliveries = Rc::new(RefCell::new(Vec::new()));
    let config = config_with(vec![subscriber("dash")]);
    let dispatcher = Dispatcher::new(recording_poster(deliveries.clone()), &config);

    let mut registry = DispatchedInfo::empty();
    registry.add_platform_id(&String::from("A"));
    let mut cache = PlatformInfo::default();
    cache.update_platform(&platform("A", "Platform A"));
    let mut reported = ReportedMap::new_empty();
    reported.set_last_ts(&String::from("A"), 9);

    registry.delete_platform_id("A");
    registry.add_platform_id(&String::from("A"));

    let fetch = |platform_id: String| -> Option<PositionsResponse> {
        Some(PositionsResponse {
            platform_id,
            platform_name: None,
            positions: vec![position(5), position(9), position(12)],
        })
    };
    let count = dispatcher.dispatch_one(&fetch, &cache, &registry, &mut reported);

    // positions already behind the prior watermark stay unsent
    assert_eq!(count, 1);
    assert_eq!(reported.get_last_ts("A"), 12);
    let delivered: Vec<u64> = deliveries.borrow().iter().map(|(_, t)| *t).collect();
    assert_eq!(delivered, vec![12]);
}

#[test]
fn failed_fetch_leaves_watermark_untouched() {
    let deliveries: Deliveries = Rc::new(RefCell::new(Vec::new()));
    let config = config_with(vec![subscriber("dash")]);
    let dispatcher = Dispatcher::new(recording_poster(deliveries.clone()), &config);

    let mut registry = DispatchedInfo::empty();
    registry.add_platform_id(&String::from("A"));
    let mut cache = PlatformInfo::default();
    cache.update_platform(&platform("A", "Platform A"));
    let mut reported = ReportedMap::new_empty();
    reported.set_last_ts(&String::from("A"), 9);

    let fetch = |_platform_id: String| -> Option<PositionsResponse> { None };
    let count = dispatcher.dispatch_one(&fetch, &cache, &registry, &mut reported);
    assert_eq!(count, 0);
    assert_eq!(reported.get_last_ts("A"), 9);
    assert!(deliveries.borrow().is_empty());
}

#[test]
fn uncached_platform_is_skipped_by_the_cycle() {
    let deliveries: Deliveries = Rc::new(RefCell::new(Vec::new()));
    let config = config_with(vec![subscriber("dash")]);
    let dispatcher = Dispatcher::new(recording_poster(deliveries.clone()), &config);

    let mut registry = DispatchedInfo::empty();
    registry.add_platform_id(&String::from("A"));
    registry.add_platform_id(&String::from("B"));
    let mut cache = PlatformInfo::default();
    cache.update_platform(&platform("B", "Platform B"));

    let platforms = dispatcher.get_dispatched_platforms(&cache, &registry);
    let ids: Vec<String> = platforms.iter().map(|p| p._id.clone()).collect();
    assert_eq!(ids, vec![String::from("B")]);
    // the skipped platform stays registered
    assert!(registry.is_dispatched_platform("A"));
}

#[test]
fn publisher_always_reports_success() {
    let deliveries: Deliveries = Rc::new(RefCell::new(Vec::new()));
    let config = config_with(vec![subscriber("bad-dash")]);
    let dispatcher = Dispatcher::new(recording_poster(deliveries.clone()), &config);
    let mut reported = ReportedMap::new_empty();
    let count = dispatcher.report_positions(
        &mut reported,
        &platform("aku", "Aku"),
        vec![position(1)],
    );
    assert_eq!(count, 1);
    assert_eq!(deliveries.borrow().len(), 1);
}

#[test]
fn loop_stops_on_done_signal() {
    let config = config_with(vec![]);
    let dispatcher = Dispatcher::new(|_: TethysDashConfig, _: XEvent| Ok(()), &config);
    let (step, _) = dispatcher.next_loop_step(1000, DispatchSignal::Done, 333);
    assert_eq!(step, DispatchStep::Stop);
    let (step, _) = dispatcher.next_loop_step(0, DispatchSignal::Disconnected, 333);
    assert_eq!(step, DispatchStep::Stop);
}

#[test]
fn loop_runs_cycle_when_wait_elapsed() {
    let config = config_with(vec![]);
    let dispatcher = Dispatcher::new(|_: TethysDashConfig, _: XEvent| Ok(()), &config);
    let (step, remaining) = dispatcher.next_loop_step(0, DispatchSignal::Pending, 333);
    assert_eq!(step, DispatchStep::RunCycle);
    assert_eq!(remaining, 30_000);
}

#[test]
fn loop_sleeps_in_short_ticks() {
    let config = config_with(vec![]);
    let dispatcher = Dispatcher::new(|_: TethysDashConfig, _: XEvent| Ok(()), &config);
    let (step, remaining) = dispatcher.next_loop_step(1000, DispatchSignal::Pending, 333);
    assert_eq!(step, DispatchStep::Sleep);
    assert_eq!(remaining, 667);
    let (step, remaining) = dispatcher.next_loop_step(200, DispatchSignal::Pending, 333);
    assert_eq!(step, DispatchStep::Sleep);
    assert_eq!(remaining, 0);
}

#[test]
fn reported_map_loads_with_last_record_winning() {
    let reported = ReportedMap::from_entries(&vec![
        ReportedEntry { platform_id: String::from("A"), time_ms: 5 },
        ReportedEntry { platform_id: String::from("B"), time_ms: 7 },
        ReportedEntry { platform_id: String::from("A"), time_ms: 6 },
    ]);
    assert_eq!(reported.get_last_ts("A"), 6);
    assert_eq!(reported.get_last_ts("B"), 7);
    assert_eq!(reported.get_last_ts("C"), 0);
    let entries = reported.get_entries();
    assert_eq!(entries.len(), 2);
}
