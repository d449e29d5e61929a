use share_leader::dispatch::{
    attempt_outcome, calc_record_num, share_group_id, Dispatcher, Outcome, RecordAction, Step,
};
use share_leader::handshake::DeliveryError;
use share_leader::qos::{min_qos, QoS};
use share_leader::subscriber::Subscriber;

fn sub(id: &str, qos: QoS) -> Subscriber {
    Subscriber {
        client_id: id.to_string(),
        qos,
        subscription_identifier: None,
        nolocal: false,
        preserve_retain: false,
    }
}

#[test]
fn record_num_is_clamped() {
    assert_eq!(calc_record_num(0), 100);
    assert_eq!(calc_record_num(1), 100);
    assert_eq!(calc_record_num(20), 100);
    assert_eq!(calc_record_num(21), 105);
    assert_eq!(calc_record_num(30), 150);
    assert_eq!(calc_record_num(200), 1000);
    assert_eq!(calc_record_num(201), 1000);
    assert_eq!(calc_record_num(usize::MAX), 1000);
}

#[test]
fn consumer_group_id_format() {
    let g = share_group_id(&"g1".to_string(), &"t1".to_string());
    assert_eq!(g, "system_sub_g1_t1");
    let e = share_group_id(&String::new(), &String::new());
    assert_eq!(e, "system_sub__");
}

#[test]
fn min_qos_picks_weaker() {
    assert_eq!(min_qos(QoS::ExactlyOnce, QoS::AtLeastOnce), QoS::AtLeastOnce);
    assert_eq!(min_qos(QoS::AtMostOnce, QoS::ExactlyOnce), QoS::AtMostOnce);
    assert_eq!(min_qos(QoS::ExactlyOnce, QoS::ExactlyOnce), QoS::ExactlyOnce);
    assert_eq!(QoS::from_u8(2), Some(QoS::ExactlyOnce));
    assert_eq!(QoS::from_u8(3), None);
    assert_eq!(QoS::AtLeastOnce.to_u8(), 1);
}

/// Delivers each record, calling `succeeds(client, attempt)` for the outcome,
/// and returns who took each record and the committed offsets.
fn run(
    d: &mut Dispatcher,
    list: &[Subscriber],
    records: &[u128],
    succeeds: &mut dyn FnMut(&str) -> bool,
) -> (Vec<(String, u128)>, Vec<u128>) {
    let mut taken = Vec::new();
    let mut committed = Vec::new();
    for &offset in records {
        d.begin_record();
        loop {
            match d.next_step() {
                Step::Refresh => {
                    let empty = d.refresh(list.to_vec());
                    assert!(!empty);
                }
                Step::GiveUp => break,
                Step::Deliver(i) => {
                    let s = d.subscriber(i);
                    let outcome = if succeeds(&s.client_id) {
                        taken.push((s.client_id.clone(), offset));
                        Outcome::Delivered(s.qos)
                    } else {
                        Outcome::Failed
                    };
                    match d.settle(outcome) {
                        RecordAction::Commit | RecordAction::CommitAndEndBatch => {
                            committed.push(offset);
                            break;
                        }
                        RecordAction::Finish => break,
                        RecordAction::Retry => {}
                    }
                }
            }
        }
    }
    (taken, committed)
}

#[test]
fn single_qos0_subscriber_commits_offset() {
    let list = vec![sub("a", QoS::AtMostOnce)];
    let mut d = Dispatcher::new(list.clone());
    let (taken, committed) = run(&mut d, &list, &[7], &mut |_| true);
    assert_eq!(taken, vec![("a".to_string(), 7)]);
    assert_eq!(committed, vec![7]);
}

#[test]
fn qos1_round_robin_in_order() {
    let list = vec![
        sub("A", QoS::AtLeastOnce),
        sub("B", QoS::AtLeastOnce),
        sub("C", QoS::AtLeastOnce),
    ];
    let mut d = Dispatcher::new(list.clone());
    let (taken, committed) = run(&mut d, &list, &[10, 11, 12], &mut |_| true);
    assert_eq!(
        taken,
        vec![
            ("A".to_string(), 10),
            ("B".to_string(), 11),
            ("C".to_string(), 12)
        ]
    );
    assert_eq!(committed.last(), Some(&12));
}

#[test]
fn qos1_failure_moves_record_to_next_member() {
    let list = vec![
        sub("A", QoS::AtLeastOnce),
        sub("B", QoS::AtLeastOnce),
        sub("C", QoS::AtLeastOnce),
    ];
    let mut d = Dispatcher::new(list.clone());
    let mut a_tries = 0;
    let (taken, committed) = run(&mut d, &list, &[10, 11, 12], &mut |c| {
        if c == "A" {
            a_tries += 1;
            a_tries > 1
        } else {
            true
        }
    });
    assert_eq!(
        taken,
        vec![
            ("B".to_string(), 10),
            ("C".to_string(), 11),
            ("A".to_string(), 12)
        ]
    );
    assert_eq!(committed, vec![10, 11, 12]);
}

#[test]
fn record_abandoned_after_every_member_fails() {
    let list = vec![sub("A", QoS::AtLeastOnce), sub("B", QoS::AtLeastOnce)];
    let mut d = Dispatcher::new(list.clone());
    let mut attempts = 0;
    let (taken, committed) = run(&mut d, &list, &[5], &mut |_| {
        attempts += 1;
        false
    });
    assert!(taken.is_empty());
    assert!(committed.is_empty());
    assert_eq!(attempts, 3);
}

#[test]
fn settle_actions() {
    let mut d = Dispatcher::new(vec![sub("A", QoS::ExactlyOnce)]);
    assert_eq!(d.settle(Outcome::Skipped), RecordAction::Commit);
    assert_eq!(d.settle(Outcome::Delivered(QoS::AtMostOnce)), RecordAction::Commit);
    assert_eq!(d.settle(Outcome::Delivered(QoS::AtLeastOnce)), RecordAction::Commit);
    assert_eq!(d.settle(Outcome::Delivered(QoS::ExactlyOnce)), RecordAction::Finish);
    assert_eq!(d.loop_times, 0);
    assert_eq!(d.settle(Outcome::Failed), RecordAction::Retry);
    assert_eq!(d.loop_times, 1);
    assert_eq!(d.settle(Outcome::Undecodable), RecordAction::CommitAndEndBatch);
    assert_eq!(d.loop_times, 1);
    d.begin_record();
    assert_eq!(d.loop_times, 0);
}

#[test]
fn outcome_by_qos() {
    let err = Err(DeliveryError::NoConnection);
    assert_eq!(attempt_outcome(QoS::AtMostOnce, err), Outcome::Delivered(QoS::AtMostOnce));
    assert_eq!(attempt_outcome(QoS::AtMostOnce, Ok(())), Outcome::Delivered(QoS::AtMostOnce));
    assert_eq!(attempt_outcome(QoS::AtLeastOnce, Ok(())), Outcome::Delivered(QoS::AtLeastOnce));
    assert_eq!(attempt_outcome(QoS::AtLeastOnce, Err(DeliveryError::WriteFailed)), Outcome::Failed);
    assert_eq!(attempt_outcome(QoS::ExactlyOnce, Ok(())), Outcome::Delivered(QoS::ExactlyOnce));
    assert_eq!(attempt_outcome(QoS::ExactlyOnce, Err(DeliveryError::WrongAck)), Outcome::Failed);
}

#[test]
fn empty_list_asks_for_refresh() {
    let mut d = Dispatcher::new(Vec::new());
    assert_eq!(d.next_step(), Step::Refresh);
    assert!(d.refresh(Vec::new()));
    assert_eq!(d.next_step(), Step::Refresh);
    assert!(!d.refresh(vec![sub("x", QoS::AtMostOnce)]));
    assert_eq!(d.next_step(), Step::Deliver(0));
    assert_eq!(d.cursor, 1);
    assert_eq!(d.next_step(), Step::Refresh);
    assert_eq!(d.members().len(), 1);
}

#[test]
fn round_robin_is_fair() {
    let list = vec![
        sub("A", QoS::AtMostOnce),
        sub("B", QoS::AtMostOnce),
        sub("C", QoS::AtMostOnce),
    ];
    let mut d = Dispatcher::new(list.clone());
    d.cursor = 1;
    let records: Vec<u128> = (0..10).collect();
    let (taken, committed) = run(&mut d, &list, &records, &mut |_| true);
    let count = |c: &str| taken.iter().filter(|(id, _)| id == c).count();
    assert_eq!(count("A"), 3);
    assert_eq!(count("B"), 4);
    assert_eq!(count("C"), 3);
    assert_eq!(taken[0].0, "B");
    assert_eq!(committed.len(), 10);
}
