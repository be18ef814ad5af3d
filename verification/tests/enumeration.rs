use ifshow::nic::{
    dedup_handles, get_if_list, same_handle, sort_handles, str_le, LinuxNic, NsAction, NsEvent,
    NsScan,
};

fn nic(name: &str, ns: Option<&str>) -> LinuxNic {
    LinuxNic { name: name.to_string(), netns: ns.map(|s| s.to_string()) }
}

#[test]
fn handles_compare_by_name_and_namespace() {
    assert!(same_handle(&nic("eth0", None), &nic("eth0", None)));
    assert!(!same_handle(&nic("eth0", None), &nic("eth0", Some("blue"))));
    assert!(!same_handle(&nic("eth0", Some("red")), &nic("eth0", Some("blue"))));
    assert!(same_handle(&nic("eth0", Some("red")), &nic("eth0", Some("red"))));
}

#[test]
fn dedup_keeps_first_occurrence() {
    let v = vec![
        nic("eth0", None),
        nic("lo", None),
        nic("eth0", None),
        nic("eth0", Some("blue")),
    ];
    let d = dedup_handles(&v);
    assert_eq!(d.len(), 3);
    assert_eq!(d[0].name, "eth0");
    assert_eq!(d[1].name, "lo");
    assert_eq!(d[2].netns.as_deref(), Some("blue"));
}

#[test]
fn sort_orders_by_name_and_is_stable() {
    let v = vec![
        nic("lo", None),
        nic("eth0", Some("blue")),
        nic("eth0", None),
        nic("docker0", None),
    ];
    let s = sort_handles(v);
    let names: Vec<&str> = s.iter().map(|n| n.name.as_str()).collect();
    assert_eq!(names, ["docker0", "eth0", "eth0", "lo"]);
    // Insertion order of equal names is kept.
    assert_eq!(s[1].netns.as_deref(), Some("blue"));
    assert_eq!(s[2].netns, None);
}

#[test]
fn lexicographic_name_order() {
    assert!(str_le("eth0", "eth1"));
    assert!(!str_le("eth10", "eth1"));
    assert!(str_le("eth", "eth0"));
    assert!(str_le("a", "a"));
}

#[test]
fn if_list_is_deduplicated_and_ordered() {
    let root = vec!["lo".to_string(), "eth0".to_string(), "lo".to_string()];
    let namespaces = vec![
        ("blue".to_string(), vec!["eth0".to_string(), "veth1".to_string()]),
        ("red".to_string(), vec!["eth0".to_string()]),
    ];
    let list = get_if_list(&root, &namespaces);
    // Every (name, namespace) pair occurs once.
    for i in 0..list.len() {
        for j in 0..list.len() {
            if i != j {
                assert!(!same_handle(&list[i], &list[j]));
            }
        }
    }
    // Ordered by name.
    for w in list.windows(2) {
        assert!(str_le(w[0].name.as_str(), w[1].name.as_str()));
    }
    assert_eq!(list.len(), 5);
    assert_eq!(list[0].name, "eth0");
    assert_eq!(list[4].name, "veth1");
}

/// Drives a scan over three namespaces where the second switch fails and
/// the third enumeration fails; the protocol must demand the switch back
/// after every successful switch and end restored.
#[test]
fn namespace_scan_always_restores() {
    let mut scan = NsScan::start(3);
    let mut restores = 0;
    let mut switches_ok = 0;
    loop {
        match scan.next_action() {
            NsAction::Switch(idx) => {
                let ok = idx != 1;
                if ok {
                    switches_ok += 1;
                }
                scan.apply(NsEvent::SwitchOutcome(ok));
            }
            NsAction::Collect => {
                let enumeration_worked = scan.next == 0;
                scan.apply(NsEvent::CollectOutcome(enumeration_worked));
            }
            NsAction::Restore => {
                restores += 1;
                scan.apply(NsEvent::Restored);
            }
            NsAction::Done => break,
        }
    }
    assert_eq!(switches_ok, 2);
    assert_eq!(restores, 2);
    assert!(scan.in_original);
}

#[test]
fn namespace_scan_demands_restore_after_failed_enumeration() {
    let mut scan = NsScan::start(1);
    assert!(matches!(scan.next_action(), NsAction::Switch(0)));
    scan.apply(NsEvent::SwitchOutcome(true));
    assert!(!scan.in_original);
    assert!(matches!(scan.next_action(), NsAction::Collect));
    scan.apply(NsEvent::CollectOutcome(false));
    // Even though enumeration failed, the next demand is the switch back.
    assert!(matches!(scan.next_action(), NsAction::Restore));
    scan.apply(NsEvent::Restored);
    assert!(scan.in_original);
    assert!(matches!(scan.next_action(), NsAction::Done));
}
