use vstd::prelude::*;
use crate::publish::fits_packet_size;

verus! {

/// The acknowledgement packets of the QoS 1 and QoS 2 handshakes.
#[derive(Clone, Copy, Debug, PartialEq, Eq, Structural)]
pub enum AckType {
    PubAck,
    PubRec,
    PubRel,
    PubComp,
}

/// An acknowledgement that arrived for a client's packet id.
#[derive(Clone, Copy, Debug, PartialEq, Eq, Structural)]
pub struct AckPacket {
    pub ack_type: AckType,
    pub pkid: u16,
}

/// Why one member could not take a record.
#[derive(Clone, Copy, Debug, PartialEq, Eq, Structural)]
pub enum DeliveryError {
    /// The client has no live connection.
    NoConnection,
    /// The payload, of this many bytes, exceeds what the connection accepts.
    PacketTooLarge(usize),
    /// The packet could not be queued on the connection.
    WriteFailed,
    /// No PUBACK came in time.
    PubAckNotReceived,
    /// An acknowledgement of another type, or of another packet id, came
    /// where the handshake awaited its own.
    WrongAck,
    /// No PUBREC came in time.
    PubRecTimeout,
}

/// Where a publish may go: the client's connection, if it has one and
/// the payload fits the connection's largest packet. `max_packet_size` is
/// `None` where the connection's limits are not known.
pub fn publish_target(connect_id: Option<u64>, max_packet_size: Option<u32>, payload_len: usize) -> (r: Result<u64, DeliveryError>)
    ensures
        connect_id is None ==> r == Err::<u64, DeliveryError>(DeliveryError::NoConnection),
        connect_id matches Some(id) ==> (match max_packet_size {
            Some(m) if payload_len > m => r == Err::<u64, DeliveryError>(DeliveryError::PacketTooLarge(payload_len)),
            _ => r == Ok::<u64, DeliveryError>(id),
        }),
{
    let id = match connect_id {
        Some(id) => id,
        None => return Err(DeliveryError::NoConnection),
    };
    if let Some(m) = max_packet_size {
        if !fits_packet_size(payload_len, m) {
            return Err(DeliveryError::PacketTooLarge(payload_len));
        }
    }
    Ok(id)
}

/// Whether `ack` is an acknowledgement of type `ack_type` for packet `pkid`.
pub open spec fn is_ack_of(ack: AckPacket, ack_type: AckType, pkid: u16) -> bool {
    ack.ack_type == ack_type && ack.pkid == pkid
}

/// How queueing a packet on the client's connection ended.
pub fn write_result(written: bool) -> (r: Result<(), DeliveryError>)
    ensures
        written ==> r == Ok::<(), DeliveryError>(()),
        !written ==> r == Err::<(), DeliveryError>(DeliveryError::WriteFailed),
{
    if written {
        Ok(())
    } else {
        Err(DeliveryError::WriteFailed)
    }
}

/// How a QoS 1 delivery ends, given what came back while it waited (`None`
/// on a timeout): it succeeds only on the PUBACK of its own packet id; a
/// timeout fails it, and so does any other acknowledgement.
pub fn qos1_result(ack: Option<AckPacket>, pkid: u16) -> (r: Result<(), DeliveryError>)
    ensures
        ack is None ==> r == Err::<(), DeliveryError>(DeliveryError::PubAckNotReceived),
        ack matches Some(a) && is_ack_of(a, AckType::PubAck, pkid) ==> r == Ok::<(), DeliveryError>(()),
        ack matches Some(a) && !is_ack_of(a, AckType::PubAck, pkid) ==> r == Err::<(), DeliveryError>(
            DeliveryError::WrongAck,
        ),
{
    match ack {
        None => Err(DeliveryError::PubAckNotReceived),
        Some(a) => {
            if a.ack_type == AckType::PubAck && a.pkid == pkid {
                Ok(())
            } else {
                Err(DeliveryError::WrongAck)
            }
        },
    }
}

/// How many times PUBREL is sent again while PUBCOMP does not come.
pub const MAX_PUBREL_RETRANSMITS: usize = 3;

/// Where a QoS 2 handshake stands.
#[derive(Clone, Copy, Debug, PartialEq, Eq, Structural)]
pub enum Qos2Phase {
    /// PUBLISH was sent; waiting for PUBREC.
    AwaitPubRec,
    /// PUBREL was sent, and sent again this many times; waiting for PUBCOMP.
    AwaitPubComp(usize),
    /// The handshake is over.
    Done,
}

/// What the dispatcher observed while it waited.
#[derive(Clone, Copy, Debug, PartialEq, Eq, Structural)]
pub enum Qos2Event {
    /// The dispatcher was told to stop.
    Stop,
    /// An acknowledgement arrived.
    Ack(AckPacket),
    /// The wait timed out.
    Timeout,
}

/// What the dispatcher does in answer.
#[derive(Clone, Copy, Debug, PartialEq, Eq, Structural)]
pub enum Qos2Action {
    /// Keep waiting for PUBCOMP.
    Wait,
    /// Commit the record's offset, then send PUBREL.
    CommitAndSendPubRel,
    /// Send PUBREL again.
    ResendPubRel,
    /// Release the packet id; the handshake succeeded.
    Release,
    /// The handshake ends in success with nothing more to do.
    Succeed,
    /// The handshake failed; the record goes to another member.
    Fail(DeliveryError),
}

/// One step of the QoS 2 handshake of packet `pkid`.
pub open spec fn qos2_next(phase: Qos2Phase, pkid: u16, event: Qos2Event) -> (Qos2Phase, Qos2Action) {
    match phase {
        Qos2Phase::AwaitPubRec => match event {
            Qos2Event::Stop => (Qos2Phase::Done, Qos2Action::Succeed),
            Qos2Event::Ack(a) => if is_ack_of(a, AckType::PubRec, pkid) {
                (Qos2Phase::AwaitPubComp(0), Qos2Action::CommitAndSendPubRel)
            } else {
                (Qos2Phase::Done, Qos2Action::Fail(DeliveryError::WrongAck))
            },
            Qos2Event::Timeout => (Qos2Phase::Done, Qos2Action::Fail(DeliveryError::PubRecTimeout)),
        },
        Qos2Phase::AwaitPubComp(n) => match event {
            Qos2Event::Stop => (Qos2Phase::Done, Qos2Action::Succeed),
            Qos2Event::Ack(a) => if is_ack_of(a, AckType::PubComp, pkid) {
                (Qos2Phase::Done, Qos2Action::Release)
            } else {
                (Qos2Phase::AwaitPubComp(n), Qos2Action::Wait)
            },
            Qos2Event::Timeout => if n < MAX_PUBREL_RETRANSMITS {
                (Qos2Phase::AwaitPubComp((n + 1) as usize), Qos2Action::ResendPubRel)
            } else {
                (Qos2Phase::Done, Qos2Action::Release)
            },
        },
        Qos2Phase::Done => (Qos2Phase::Done, Qos2Action::Succeed),
    }
}

/// The QoS 2 handshake of one packet with one client.
#[derive(Clone, Copy, Debug, PartialEq, Eq, Structural)]
pub struct Qos2Handshake {
    pub pkid: u16,
    pub phase: Qos2Phase,
}

impl Qos2Handshake {
    pub open spec fn wf(self) -> bool {
        self.phase matches Qos2Phase::AwaitPubComp(n) ==> n <= MAX_PUBREL_RETRANSMITS
    }

    /// A handshake whose PUBLISH was just sent.
    pub fn new(pkid: u16) -> (r: Qos2Handshake)
        ensures
            r.wf(),
            r.pkid == pkid,
            r.phase == Qos2Phase::AwaitPubRec,
    {
        Qos2Handshake { pkid, phase: Qos2Phase::AwaitPubRec }
    }

    /// Whether the handshake is over.
    pub fn is_done(&self) -> (r: bool)
        ensures
            r == (self.phase == Qos2Phase::Done),
    {
        self.phase == Qos2Phase::Done
    }

    /// Takes one event and says what to do about it.
    pub fn on_event(&mut self, event: Qos2Event) -> (r: Qos2Action)
        requires
            old(self).wf(),
        ensures
            final(self).wf(),
            final(self).pkid == old(self).pkid,
            (final(self).phase, r) == qos2_next(old(self).phase, old(self).pkid, event),
    {
        match self.phase {
            Qos2Phase::AwaitPubRec => match event {
                Qos2Event::Stop => {
                    self.phase = Qos2Phase::Done;
                    Qos2Action::Succeed
                },
                Qos2Event::Ack(a) => {
                    if a.ack_type == AckType::PubRec && a.pkid == self.pkid {
                        self.phase = Qos2Phase::AwaitPubComp(0);
                        Qos2Action::CommitAndSendPubRel
                    } else {
                        self.phase = Qos2Phase::Done;
                        Qos2Action::Fail(DeliveryError::WrongAck)
                    }
                },
                Qos2Event::Timeout => {
                    self.phase = Qos2Phase::Done;
                    Qos2Action::Fail(DeliveryError::PubRecTimeout)
                },
            },
            Qos2Phase::AwaitPubComp(n) => match event {
                Qos2Event::Stop => {
                    self.phase = Qos2Phase::Done;
                    Qos2Action::Succeed
                },
                Qos2Event::Ack(a) => {
                    if a.ack_type == AckType::PubComp && a.pkid == self.pkid {
                        self.phase = Qos2Phase::Done;
                        Qos2Action::Release
                    } else {
                        Qos2Action::Wait
                    }
                },
                Qos2Event::Timeout => {
                    if n < MAX_PUBREL_RETRANSMITS {
                        self.phase = Qos2Phase::AwaitPubComp(n + 1);
                        Qos2Action::ResendPubRel
                    } else {
                        self.phase = Qos2Phase::Done;
                        Qos2Action::Release
                    }
                },
            },
            Qos2Phase::Done => Qos2Action::Succeed,
        }
    }
}

/// How many times `action` is taken while the handshake of `pkid`, from
/// `phase`, takes `events` in order.
pub open spec fn count_action(phase: Qos2Phase, pkid: u16, events: Seq<Qos2Event>, action: Qos2Action) -> nat
    decreases events.len(),
{
    if events.len() == 0 {
        0
    } else {
        let (next, act) = qos2_next(phase, pkid, events[0]);
        (if act == action {
            1nat
        } else {
            0nat
        }) + count_action(next, pkid, events.drop_first(), action)
    }
}

/// The record's offset is committed only in answer to the PUBREC of the
/// handshake's own packet id, and only while that PUBREC is awaited.
pub proof fn lemma_commit_only_on_pubrec(phase: Qos2Phase, pkid: u16, event: Qos2Event)
    ensures
        qos2_next(phase, pkid, event).1 == Qos2Action::CommitAndSendPubRel <==> (phase
            == Qos2Phase::AwaitPubRec && event == Qos2Event::Ack(AckPacket { ack_type: AckType::PubRec, pkid })),
{
}

proof fn lemma_counts_after_pubrec(n: usize, pkid: u16, events: Seq<Qos2Event>)
    requires
        n <= MAX_PUBREL_RETRANSMITS,
    ensures
        count_action(Qos2Phase::AwaitPubComp(n), pkid, events, Qos2Action::CommitAndSendPubRel) == 0,
        count_action(Qos2Phase::AwaitPubComp(n), pkid, events, Qos2Action::ResendPubRel)
            <= MAX_PUBREL_RETRANSMITS - n,
    decreases events.len(),
{
    if events.len() > 0 {
        let (next, act) = qos2_next(Qos2Phase::AwaitPubComp(n), pkid, events[0]);
        match next {
            Qos2Phase::AwaitPubComp(m) => lemma_counts_after_pubrec(m, pkid, events.drop_first()),
            _ => lemma_counts_when_done(pkid, events.drop_first()),
        }
    }
}

proof fn lemma_counts_when_done(pkid: u16, events: Seq<Qos2Event>)
    ensures
        count_action(Qos2Phase::Done, pkid, events, Qos2Action::CommitAndSendPubRel) == 0,
        count_action(Qos2Phase::Done, pkid, events, Qos2Action::ResendPubRel) == 0,
    decreases events.len(),
{
    if events.len() > 0 {
        lemma_counts_when_done(pkid, events.drop_first());
    }
}

/// Over any run of a handshake from its PUBLISH, the offset is committed at
/// most once, and PUBREL is sent again at most `MAX_PUBREL_RETRANSMITS` times.
pub proof fn lemma_handshake_bounded(pkid: u16, events: Seq<Qos2Event>)
    ensures
        count_action(Qos2Phase::AwaitPubRec, pkid, events, Qos2Action::CommitAndSendPubRel) <= 1,
        count_action(Qos2Phase::AwaitPubRec, pkid, events, Qos2Action::ResendPubRel)
            <= MAX_PUBREL_RETRANSMITS,
    decreases events.len(),
{
    if events.len() > 0 {
        let (next, act) = qos2_next(Qos2Phase::AwaitPubRec, pkid, events[0]);
        match next {
            Qos2Phase::AwaitPubRec => lemma_handshake_bounded(pkid, events.drop_first()),
            Qos2Phase::AwaitPubComp(m) => lemma_counts_after_pubrec(m, pkid, events.drop_first()),
            Qos2Phase::Done => lemma_counts_when_done(pkid, events.drop_first()),
        }
    }
}

/// A stop delivered twice leaves the handshake where one stop leaves it.
pub proof fn lemma_stop_twice(phase: Qos2Phase, pkid: u16)
    ensures
        qos2_next(qos2_next(phase, pkid, Qos2Event::Stop).0, pkid, Qos2Event::Stop).0 == qos2_next(
            phase,
            pkid,
            Qos2Event::Stop,
        ).0,
        qos2_next(phase, pkid, Qos2Event::Stop).0 == Qos2Phase::Done,
{
}

} // verus!
