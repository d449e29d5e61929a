use share_leader::handshake::{
    publish_target, qos1_result, write_result, AckPacket, AckType, DeliveryError, Qos2Action, Qos2Event,
    Qos2Handshake, Qos2Phase, MAX_PUBREL_RETRANSMITS,
};

fn ack(ack_type: AckType, pkid: u16) -> Qos2Event {
    Qos2Event::Ack(AckPacket { ack_type, pkid })
}

#[test]
fn qos1_target_checks() {
    assert_eq!(publish_target(None, Some(10), 5), Err(DeliveryError::NoConnection));
    assert_eq!(publish_target(Some(3), Some(10), 11), Err(DeliveryError::PacketTooLarge(11)));
    assert_eq!(publish_target(Some(3), Some(10), 10), Ok(3));
    assert_eq!(publish_target(Some(3), None, 1_000_000), Ok(3));
}

#[test]
fn qos1_needs_matching_puback() {
    let good = AckPacket { ack_type: AckType::PubAck, pkid: 5 };
    assert_eq!(qos1_result(Some(good), 5), Ok(()));
    assert_eq!(qos1_result(Some(good), 6), Err(DeliveryError::WrongAck));
    let wrong = AckPacket { ack_type: AckType::PubRec, pkid: 5 };
    assert_eq!(qos1_result(Some(wrong), 5), Err(DeliveryError::WrongAck));
    assert_eq!(qos1_result(None, 5), Err(DeliveryError::PubAckNotReceived));
}

#[test]
fn qos2_commits_at_pubrec_and_resends_pubrel() {
    let mut h = Qos2Handshake::new(9);
    assert_eq!(h.on_event(ack(AckType::PubRec, 9)), Qos2Action::CommitAndSendPubRel);
    assert_eq!(h.phase, Qos2Phase::AwaitPubComp(0));
    for n in 0..MAX_PUBREL_RETRANSMITS {
        assert_eq!(h.on_event(Qos2Event::Timeout), Qos2Action::ResendPubRel);
        assert_eq!(h.phase, Qos2Phase::AwaitPubComp(n + 1));
    }
    assert_eq!(h.on_event(Qos2Event::Timeout), Qos2Action::Release);
    assert!(h.is_done());
}

#[test]
fn qos2_pubcomp_releases() {
    let mut h = Qos2Handshake::new(1);
    h.on_event(ack(AckType::PubRec, 1));
    assert_eq!(h.on_event(ack(AckType::PubAck, 1)), Qos2Action::Wait);
    assert_eq!(h.on_event(ack(AckType::PubComp, 1)), Qos2Action::Release);
    assert_eq!(h.phase, Qos2Phase::Done);
}

#[test]
fn qos2_pubrec_timeout_fails() {
    let mut h = Qos2Handshake::new(1);
    assert_eq!(
        h.on_event(Qos2Event::Timeout),
        Qos2Action::Fail(DeliveryError::PubRecTimeout)
    );
    assert!(h.is_done());
}

#[test]
fn qos2_stop_is_success_and_idempotent() {
    let mut h = Qos2Handshake::new(1);
    assert_eq!(h.on_event(Qos2Event::Stop), Qos2Action::Succeed);
    assert_eq!(h.on_event(Qos2Event::Stop), Qos2Action::Succeed);
    assert_eq!(h.phase, Qos2Phase::Done);
    let mut h = Qos2Handshake::new(2);
    h.on_event(ack(AckType::PubRec, 2));
    assert_eq!(h.on_event(Qos2Event::Stop), Qos2Action::Succeed);
    assert!(h.is_done());
}

#[test]
fn qos2_wrong_ack_fails_member() {
    let mut h = Qos2Handshake::new(9);
    assert_eq!(
        h.on_event(ack(AckType::PubRec, 8)),
        Qos2Action::Fail(DeliveryError::WrongAck)
    );
    assert!(h.is_done());
    let mut h = Qos2Handshake::new(9);
    assert_eq!(
        h.on_event(ack(AckType::PubAck, 9)),
        Qos2Action::Fail(DeliveryError::WrongAck)
    );
    assert_eq!(h.phase, Qos2Phase::Done);
}

#[test]
fn write_failure_is_reported() {
    assert_eq!(write_result(true), Ok(()));
    assert_eq!(write_result(false), Err(DeliveryError::WriteFailed));
}
