use odss2dash::platform_info::PlatformInfo;
use odss2dash::trackdb_client::PlatformRes;

fn platform(id: &str, name: &str) -> PlatformRes {
    PlatformRes {
        _id: String::from(id),
        name: String::from(name),
        abbreviation: String::from(name),
        platform_type: None,
        color: None,
        icon_url: None,
    }
}

#[test]
fn get_platform_returns_cached_record() {
    let mut cache = PlatformInfo::default();
    cache.update_platform(&platform("aku", "Aku"));
    let found = cache.get_platform("aku").expect("cached record");
    assert_eq!(found._id, "aku");
    assert_eq!(found.name, "Aku");
    assert!(cache.get_platform("makai").is_none());
}

#[test]
fn update_platform_replaces_record() {
    let mut cache = PlatformInfo::default();
    cache.update_platform(&platform("aku", "Aku"));
    cache.update_platform(&platform("aku", "Aku II"));
    assert_eq!(cache.get_platforms().len(), 1);
    assert_eq!(cache.get_platform("aku").unwrap().name, "Aku II");
}

#[test]
fn set_platforms_replaces_wholesale_last_record_wins() {
    let mut cache = PlatformInfo::default();
    cache.update_platform(&platform("old", "Old"));
    cache.set_platforms(vec![
        platform("aku", "Aku"),
        platform("makai", "Makai"),
        platform("aku", "Aku II"),
    ]);
    assert!(cache.get_platform("old").is_none());
    assert_eq!(cache.get_platforms().len(), 2);
    assert_eq!(cache.get_platform("aku").unwrap().name, "Aku II");
    assert_eq!(cache.get_platform("makai").unwrap().name, "Makai");
}

#[test]
fn listing_is_in_ascending_id_order() {
    let mut cache = PlatformInfo::default();
    cache.update_platform(&platform("makai", "Makai"));
    cache.update_platform(&platform("aku", "Aku"));
    cache.update_platform(&platform("pontus", "Pontus"));
    let ids: Vec<String> = cache.get_platforms().iter().map(|p| p._id.clone()).collect();
    assert_eq!(
        ids,
        vec![String::from("aku"), String::from("makai"), String::from("pontus")]
    );

    let mut bulk = PlatformInfo::default();
    bulk.set_platforms(vec![
        platform("pontus", "Pontus"),
        platform("aku", "Aku"),
        platform("makai", "Makai"),
    ]);
    let bulk_ids: Vec<String> = bulk.get_platforms().iter().map(|p| p._id.clone()).collect();
    assert_eq!(
        bulk_ids,
        vec![String::from("aku"), String::from("makai"), String::from("pontus")]
    );
}

#[test]
fn get_platforms_returns_owned_copies() {
    let mut cache = PlatformInfo::default();
    cache.update_platform(&platform("aku", "Aku"));
    cache.update_platform(&platform("makai", "Makai"));
    let all = cache.get_platforms();
    assert_eq!(all.len(), 2);
    let ids: Vec<String> = all.iter().map(|p| p._id.clone()).collect();
    assert!(ids.contains(&String::from("aku")));
    assert!(ids.contains(&String::from("makai")));
}
