use odss2dash::dispatched_info::DispatchedInfo;

fn ids(registry: &DispatchedInfo) -> Vec<String> {
    registry.get_platform_ids()
}

#[test]
fn add_twice_is_idempotent() {
    let mut registry = DispatchedInfo::empty();
    assert!(registry.add_platform_id(&String::from("aku")));
    assert!(!registry.add_platform_id(&String::from("aku")));
    assert_eq!(registry.get_num_platforms(), 1);
    assert_eq!(ids(&registry), vec![String::from("aku")]);
}

#[test]
fn add_keeps_sorted_order() {
    let mut registry = DispatchedInfo::empty();
    assert!(registry.add_platform_id(&String::from("makai")));
    assert!(registry.add_platform_id(&String::from("aku")));
    assert!(registry.add_platform_id(&String::from("pontus")));
    assert_eq!(
        ids(&registry),
        vec![String::from("aku"), String::from("makai"), String::from("pontus")]
    );
}

#[test]
fn add_many_reports_only_new_ids() {
    let mut registry = DispatchedInfo::empty();
    registry.add_platform_id(&String::from("aku"));
    let newly = registry.add_platform_ids(vec![
        String::from("makai"),
        String::from("aku"),
        String::from("makai"),
        String::from("pontus"),
    ]);
    assert_eq!(newly, vec![String::from("makai"), String::from("pontus")]);
    assert_eq!(
        ids(&registry),
        vec![String::from("aku"), String::from("makai"), String::from("pontus")]
    );
}

#[test]
fn add_many_final_set_independent_of_input_order() {
    let mut first = DispatchedInfo::empty();
    first.add_platform_id(&String::from("aku"));
    let mut second = DispatchedInfo::empty();
    second.add_platform_id(&String::from("aku"));

    first.add_platform_ids(vec![
        String::from("pontus"),
        String::from("makai"),
        String::from("aku"),
    ]);
    second.add_platform_ids(vec![
        String::from("makai"),
        String::from("makai"),
        String::from("pontus"),
    ]);
    assert_eq!(ids(&first), ids(&second));
}

#[test]
fn delete_registered_platform() {
    let mut registry = DispatchedInfo::empty();
    registry.add_platform_id(&String::from("aku"));
    registry.add_platform_id(&String::from("makai"));
    let removed = registry.delete_platform_id("aku");
    assert_eq!(removed, Some(String::from("aku")));
    assert_eq!(ids(&registry), vec![String::from("makai")]);
    assert!(!registry.is_dispatched_platform("aku"));
}

#[test]
fn delete_absent_platform_is_a_noop() {
    let mut registry = DispatchedInfo::empty();
    registry.add_platform_id(&String::from("aku"));
    assert_eq!(registry.delete_platform_id("makai"), None);
    assert_eq!(ids(&registry), vec![String::from("aku")]);
}

#[test]
fn from_platform_ids_dedups_and_sorts() {
    let registry = DispatchedInfo::from_platform_ids(&vec![
        String::from("makai"),
        String::from("aku"),
        String::from("makai"),
    ]);
    assert_eq!(ids(&registry), vec![String::from("aku"), String::from("makai")]);
}

#[test]
fn contains_checks_membership() {
    let mut registry = DispatchedInfo::empty();
    registry.add_platform_id(&String::from("aku"));
    assert!(registry.is_dispatched_platform("aku"));
    assert!(!registry.is_dispatched_platform("ak"));
    assert!(!registry.is_dispatched_platform("akua"));
}

#[test]
fn add_many_with_empty_input_changes_nothing() {
    let mut registry = DispatchedInfo::empty();
    registry.add_platform_id(&String::from("aku"));
    let newly = registry.add_platform_ids(vec![]);
    assert!(newly.is_empty());
    assert_eq!(ids(&registry), vec![String::from("aku")]);
}

#[test]
fn empty_registry_has_no_platforms() {
    let registry = DispatchedInfo::empty();
    assert_eq!(registry.get_num_platforms(), 0);
    assert!(ids(&registry).is_empty());
}
