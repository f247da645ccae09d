use odss2dash::config::{Config, TethysDashConfig};
use odss2dash::dispatched_info::DispatchedInfo;
use odss2dash::health::HealthStatus;
use odss2dash::management::{
    absorb_platform, add_dispatched_platforms, apply_platforms_refresh,
    delete_dispatched_platform, get_dispatched_platform, get_dispatched_platforms,
    merge_platform_name, PlatformAdd,
};
use odss2dash::platform_info::PlatformInfo;
use odss2dash::trackdb_client::{PlatformRes, Position, PositionsResponse};

fn platform(id: &str, name: &str) -> PlatformRes {
    PlatformRes {
        _id: String::from(id),
        name: String::from(name),
        abbreviation: String::from(name),
        platform_type: None,
        color: None,
        icon_url: None,
    }
}

#[test]
fn listing_purges_uncached_registrations() {
    let mut registry = DispatchedInfo::empty();
    registry.add_platform_id(&String::from("A"));
    registry.add_platform_id(&String::from("B"));
    let mut cache = PlatformInfo::default();
    cache.update_platform(&platform("A", "Platform A"));

    let listed = get_dispatched_platforms(&cache, &mut registry);
    let ids: Vec<String> = listed.iter().map(|p| p._id.clone()).collect();
    assert_eq!(ids, vec![String::from("A")]);
    // the stale registration was healed away
    assert!(!registry.is_dispatched_platform("B"));
    assert!(registry.is_dispatched_platform("A"));
}

#[test]
fn single_read_returns_cached_registration() {
    let mut registry = DispatchedInfo::empty();
    registry.add_platform_id(&String::from("A"));
    let mut cache = PlatformInfo::default();
    cache.update_platform(&platform("A", "Platform A"));

    let found = get_dispatched_platform(&cache, &mut registry, "A").expect("registered and cached");
    assert_eq!(found.name, "Platform A");
}

#[test]
fn single_read_purges_uncached_registration() {
    let mut registry = DispatchedInfo::empty();
    registry.add_platform_id(&String::from("B"));
    let cache = PlatformInfo::default();

    assert!(get_dispatched_platform(&cache, &mut registry, "B").is_none());
    assert!(!registry.is_dispatched_platform("B"));
}

#[test]
fn single_read_of_unregistered_platform_changes_nothing() {
    let mut registry = DispatchedInfo::empty();
    registry.add_platform_id(&String::from("A"));
    let mut cache = PlatformInfo::default();
    cache.update_platform(&platform("A", "Platform A"));

    assert!(get_dispatched_platform(&cache, &mut registry, "X").is_none());
    assert!(registry.is_dispatched_platform("A"));
}

#[test]
fn add_registers_only_platforms_known_to_the_cache() {
    let mut registry = DispatchedInfo::empty();
    let mut cache = PlatformInfo::default();
    cache.update_platform(&platform("A", "Platform A"));

    let request = PlatformAdd {
        platform_ids: vec![String::from("A"), String::from("X"), String::from("A")],
    };
    let added = add_dispatched_platforms(&cache, &mut registry, &request);
    // only the subset actually newly registered is reported: the unknown
    // platform is not registered, and the duplicate is not repeated
    assert_eq!(added, vec![String::from("A")]);
    assert!(registry.is_dispatched_platform("A"));
    assert!(!registry.is_dispatched_platform("X"));
    assert_eq!(registry.get_num_platforms(), 1);
}

#[test]
fn add_does_not_report_already_dispatched_platforms() {
    let mut registry = DispatchedInfo::empty();
    let mut cache = PlatformInfo::default();
    cache.update_platform(&platform("A", "Platform A"));
    cache.update_platform(&platform("B", "Platform B"));
    registry.add_platform_id(&String::from("A"));

    let request = PlatformAdd {
        platform_ids: vec![String::from("A"), String::from("B")],
    };
    let added = add_dispatched_platforms(&cache, &mut registry, &request);
    assert_eq!(added, vec![String::from("B")]);
    assert_eq!(registry.get_num_platforms(), 2);
}

#[test]
fn delete_reports_the_removed_identifier() {
    let mut registry = DispatchedInfo::empty();
    registry.add_platform_id(&String::from("A"));
    let res = delete_dispatched_platform(&mut registry, "A").expect("was registered");
    assert_eq!(res.platform_id, "A");
    assert!(delete_dispatched_platform(&mut registry, "A").is_none());
}

#[test]
fn empty_refresh_keeps_cached_platforms() {
    let mut cache = PlatformInfo::default();
    cache.update_platform(&platform("A", "Platform A"));
    assert!(!apply_platforms_refresh(&mut cache, vec![]));
    assert_eq!(cache.get_platforms().len(), 1);
}

#[test]
fn refresh_replaces_cached_platforms() {
    let mut cache = PlatformInfo::default();
    cache.update_platform(&platform("A", "Platform A"));
    assert!(apply_platforms_refresh(
        &mut cache,
        vec![platform("B", "Platform B")]
    ));
    assert!(cache.get_platform("A").is_none());
    assert_eq!(cache.get_platform("B").unwrap().name, "Platform B");
}

#[test]
fn absorbing_a_fetched_platform_updates_the_cache() {
    let mut cache = PlatformInfo::default();
    let res = absorb_platform(&mut cache, Some(platform("A", "Platform A")));
    assert_eq!(res.unwrap()._id, "A");
    assert_eq!(cache.get_platform("A").unwrap().name, "Platform A");
    assert!(absorb_platform(&mut cache, None).is_none());
}

#[test]
fn merged_response_carries_the_cached_name() {
    let mut cache = PlatformInfo::default();
    cache.update_platform(&platform("A", "Platform A"));
    let res = merge_platform_name(
        &cache,
        PositionsResponse {
            platform_id: String::from("A"),
            platform_name: None,
            positions: vec![Position { time_ms: 1, lat_bits: 0, lon_bits: 0 }],
        },
    );
    assert_eq!(res.platform_name, Some(String::from("Platform A")));
    assert_eq!(res.positions.len(), 1);

    let unknown = merge_platform_name(
        &cache,
        PositionsResponse {
            platform_id: String::from("X"),
            platform_name: None,
            positions: vec![],
        },
    );
    assert_eq!(unknown.platform_name, None);
}

#[test]
fn redacted_config_blanks_every_credential() {
    let config = Config {
        odss_api: String::from("https://odss.example.net/odss"),
        external_url: String::from("https://relay.example.net/odss2dash"),
        port: 3033,
        poll_period_ms: 30_000,
        default_last_number_of_fixes: 5,
        tethysdashes: vec![
            TethysDashConfig {
                name: String::from("okeanids"),
                api: String::from("https://okeanids.example.net/TethysDash/api"),
                api_key: String::from("SECRET-REDACTED"),
            },
            TethysDashConfig {
                name: String::from("tethystest"),
                api: String::from("https://tethystest.example.net/TethysDash/api"),
                api_key: String::from("SECRET-REDACTED"),
            },
        ],
    };
    let redacted = config.redacted();
    assert_eq!(redacted.odss_api, config.odss_api);
    assert_eq!(redacted.external_url, config.external_url);
    assert_eq!(redacted.port, config.port);
    assert_eq!(redacted.poll_period_ms, config.poll_period_ms);
    assert_eq!(
        redacted.default_last_number_of_fixes,
        config.default_last_number_of_fixes
    );
    assert_eq!(redacted.tethysdashes.len(), 2);
    for (orig, red) in config.tethysdashes.iter().zip(redacted.tethysdashes.iter()) {
        assert_eq!(red.name, orig.name);
        assert_eq!(red.api, orig.api);
        assert_eq!(red.api_key, "REDACTED");
    }
}

#[test]
fn health_status_holds_the_snapshot() {
    let status = HealthStatus {
        free_memory: 1024,
        total_memory: 4096,
        cpus: 8,
        application: String::from("odss2dash"),
        version: String::from("0.1.0"),
    };
    let copy = status.clone();
    assert_eq!(copy.free_memory, 1024);
    assert_eq!(copy.total_memory, 4096);
    assert_eq!(copy.cpus, 8);
    assert_eq!(copy.application, "odss2dash");
    assert_eq!(copy.version, "0.1.0");
}
