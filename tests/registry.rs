use share_leader::leader::{build_share_leader_sub_list, SubscribeShareLeader};
use share_leader::qos::QoS;
use share_leader::subscriber::{ShareGroup, Subscriber};

fn sub(id: &str, qos: QoS) -> Subscriber {
    Subscriber {
        client_id: id.to_string(),
        qos,
        subscription_identifier: None,
        nolocal: false,
        preserve_retain: false,
    }
}

fn group(members: &[&str]) -> ShareGroup {
    let mut g = ShareGroup::new("t1".to_string(), "topic/a".to_string(), "g".to_string());
    for m in members {
        g.add_subscriber(sub(m, QoS::AtLeastOnce));
    }
    g
}

#[test]
fn same_client_replaces_member() {
    let mut g = group(&["a", "b"]);
    g.add_subscriber(sub("a", QoS::ExactlyOnce));
    assert_eq!(g.len(), 2);
    let list = g.sub_list();
    assert_eq!(list[0].client_id, "a");
    assert_eq!(list[0].qos, QoS::ExactlyOnce);
    assert_eq!(g.position(&"b".to_string()), Some(1));
    g.remove_subscriber(&"a".to_string());
    assert_eq!(g.len(), 1);
    assert_eq!(g.sub_list()[0].client_id, "b");
    g.remove_subscriber(&"zz".to_string());
    assert_eq!(g.len(), 1);
    g.remove_subscriber(&"b".to_string());
    assert!(g.is_empty());
}

#[test]
fn gc_names_dispatchers_without_group() {
    let mut r: SubscribeShareLeader<u32> = SubscribeShareLeader::new();
    r.set_group("k1".to_string(), group(&["a"]));
    r.insert_dispatcher("k1".to_string(), 1);
    r.insert_dispatcher("k2".to_string(), 2);
    r.insert_dispatcher("k3".to_string(), 3);
    assert_eq!(r.try_thread_gc(), vec!["k2".to_string(), "k3".to_string()]);
    assert_eq!(r.remove_dispatcher(&"k2".to_string()), Some(2));
    assert_eq!(r.remove_dispatcher(&"k2".to_string()), None);
    assert_eq!(r.try_thread_gc(), vec!["k3".to_string()]);
    assert_eq!(r.dispatcher(&"k1".to_string()), Some(&1));
}

#[test]
fn start_pass_stops_empty_and_spawns_missing() {
    let mut r: SubscribeShareLeader<u32> = SubscribeShareLeader::new();
    r.set_group("full".to_string(), group(&["a", "b"]));
    r.set_group("empty".to_string(), group(&[]));
    r.set_group("idle".to_string(), group(&[]));
    r.set_group("busy".to_string(), group(&["c"]));
    r.insert_dispatcher("empty".to_string(), 1);
    r.insert_dispatcher("busy".to_string(), 2);
    let plan = r.start_push_thread();
    assert_eq!(plan.stop, vec!["empty".to_string()]);
    assert_eq!(plan.spawn, vec!["full".to_string(), "idle".to_string()]);
}

#[test]
fn supervisor_ticks_converge() {
    let mut r: SubscribeShareLeader<u32> = SubscribeShareLeader::new();
    r.set_group("live".to_string(), group(&["a"]));
    r.set_group("dead".to_string(), group(&[]));
    r.insert_dispatcher("gone".to_string(), 7);
    for _ in 0..3 {
        for k in r.try_thread_gc() {
            r.remove_dispatcher(&k);
        }
        let plan = r.start_push_thread();
        for k in plan.stop {
            r.remove_group(&k);
        }
        for k in plan.spawn {
            r.insert_dispatcher(k, 0);
        }
    }
    assert!(r.contains_group(&"live".to_string()));
    assert!(!r.contains_group(&"dead".to_string()));
    assert!(r.contains_dispatcher(&"live".to_string()));
    assert!(!r.contains_dispatcher(&"dead".to_string()));
    assert!(!r.contains_dispatcher(&"gone".to_string()));
}

#[test]
fn sub_list_snapshot() {
    let mut r: SubscribeShareLeader<u32> = SubscribeShareLeader::new();
    r.set_group("k".to_string(), group(&["a", "b"]));
    let list = build_share_leader_sub_list(&r, &"k".to_string());
    assert_eq!(list.len(), 2);
    assert_eq!(list[1].client_id, "b");
    assert!(build_share_leader_sub_list(&r, &"other".to_string()).is_empty());
    let removed = r.remove_group(&"k".to_string()).unwrap();
    assert_eq!(removed.group_name, "g");
    assert!(r.get_group(&"k".to_string()).is_none());
    assert!(build_share_leader_sub_list(&r, &"k".to_string()).is_empty());
}
