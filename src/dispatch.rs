use vstd::prelude::*;
use vstd::string::*;
use crate::qos::QoS;
use crate::subscriber::Subscriber;
use crate::subscriber::copy_subscribers;
use crate::handshake::DeliveryError;

verus! {

/// Fewest records asked of the log in one read.
pub const MIN_RECORD_NUM: usize = 100;

/// Most records asked of the log in one read.
pub const MAX_RECORD_NUM: usize = 1000;

/// Records asked of the log per group member.
pub const RECORDS_PER_SUBSCRIBER: usize = 5;

/// Batch size for a group of `sub_len` members: five per member, at least
/// one hundred and at most one thousand.
pub open spec fn record_num_spec(sub_len: nat) -> nat {
    let n = sub_len * 5;
    if n < 100 {
        100
    } else if n > 1000 {
        1000
    } else {
        n
    }
}

/// How many records one read cycle asks of the log.
pub fn calc_record_num(sub_len: usize) -> (r: usize)
    ensures
        r as nat == record_num_spec(sub_len as nat),
        MIN_RECORD_NUM <= r <= MAX_RECORD_NUM,
{
    if sub_len == 0 {
        return MIN_RECORD_NUM;
    }
    if sub_len > MAX_RECORD_NUM / RECORDS_PER_SUBSCRIBER {
        return MAX_RECORD_NUM;
    }
    let num = sub_len * RECORDS_PER_SUBSCRIBER;
    if num < MIN_RECORD_NUM {
        MIN_RECORD_NUM
    } else {
        num
    }
}


/// The consumer group under which the dispatcher of `group_name` on topic
/// `topic_id` reads the log and commits its offsets.
pub open spec fn group_id_spec(group_name: Seq<char>, topic_id: Seq<char>) -> Seq<char> {
    "system_sub_"@ + group_name + "_"@ + topic_id
}

/// The consumer group id of a share group's dispatcher.
pub fn share_group_id(group_name: &String, topic_id: &String) -> (r: String)
    ensures
        r@ == group_id_spec(group_name@, topic_id@),
{
    let prefix = String::from_str("system_sub_");
    let r = prefix.concat(group_name.as_str()).concat("_").concat(topic_id.as_str());
    r
}

/// What the dispatcher does next for the record in hand.
#[derive(Clone, Copy, Debug, PartialEq, Eq, Structural)]
pub enum Step {
    /// The member list is exhausted or empty: read it again from the registry
    /// and hand it to `refresh`.
    Refresh,
    /// Every member had its chance: abandon the record, its offset stays.
    GiveUp,
    /// Deliver the record to the member at this position of the list.
    Deliver(usize),
}

/// How one delivery attempt of a record ended.
#[derive(Clone, Copy, Debug, PartialEq, Eq, Structural)]
pub enum Outcome {
    /// The member's no-local option kept the message from it.
    Skipped,
    /// The handshake of this guarantee completed (for QoS 2: PUBREC came, or
    /// the dispatcher was told to stop).
    Delivered(QoS),
    /// The member could not take the record.
    Failed,
    /// The record's payload could not be decoded: no member can take it.
    Undecodable,
}

/// What becomes of the record after an attempt.
#[derive(Clone, Copy, Debug, PartialEq, Eq, Structural)]
pub enum RecordAction {
    /// Commit the record's offset and go on to the next record.
    Commit,
    /// Go on to the next record; the handshake has already committed the offset.
    Finish,
    /// Try the record on the next member.
    Retry,
    /// Commit the record's offset, so that it is not read again, and leave
    /// the rest of the batch for the next read.
    CommitAndEndBatch,
}

/// The action that settles a record after an attempt ended with `outcome`.
pub open spec fn action_for(outcome: Outcome) -> RecordAction {
    match outcome {
        Outcome::Skipped => RecordAction::Commit,
        Outcome::Delivered(QoS::ExactlyOnce) => RecordAction::Finish,
        Outcome::Delivered(_) => RecordAction::Commit,
        Outcome::Failed => RecordAction::Retry,
        Outcome::Undecodable => RecordAction::CommitAndEndBatch,
    }
}

/// The outcome of an attempt under guarantee `qos` whose delivery step ended
/// with `result`: a QoS 0 publish is sent at most once and counts as
/// delivered whatever became of it; under QoS 1 and 2 an error fails the
/// member.
pub open spec fn outcome_spec(qos: QoS, result: Result<(), DeliveryError>) -> Outcome {
    if qos == QoS::AtMostOnce {
        Outcome::Delivered(QoS::AtMostOnce)
    } else if result is Ok {
        Outcome::Delivered(qos)
    } else {
        Outcome::Failed
    }
}

/// Classifies an attempt under guarantee `qos` by how its delivery ended.
pub fn attempt_outcome(qos: QoS, result: Result<(), DeliveryError>) -> (r: Outcome)
    ensures
        r == outcome_spec(qos, result),
{
    match qos {
        QoS::AtMostOnce => Outcome::Delivered(QoS::AtMostOnce),
        _ => match result {
            Ok(()) => Outcome::Delivered(qos),
            Err(_) => Outcome::Failed,
        },
    }
}

/// A record delivered under QoS 0 or 1, or skipped by the no-local option,
/// has its offset committed before the dispatcher moves past it; under QoS 2
/// the handshake commits it; a record that cannot be decoded is committed and
/// ends the batch; only a failure keeps the record in hand.
pub proof fn lemma_commit_before_moving_on(outcome: Outcome)
    ensures
        outcome == Outcome::Skipped ==> action_for(outcome) == RecordAction::Commit,
        (outcome matches Outcome::Delivered(q) && q.level() < 2) ==> action_for(outcome) == RecordAction::Commit,
        outcome == Outcome::Delivered(QoS::ExactlyOnce) ==> action_for(outcome) == RecordAction::Finish,
        outcome == Outcome::Undecodable ==> action_for(outcome) == RecordAction::CommitAndEndBatch,
        action_for(outcome) == RecordAction::Retry <==> outcome == Outcome::Failed,
{
}

/// Round-robin state of one share group's dispatcher: the member list it
/// works from, the position of the next member to try, and how many members
/// failed the record in hand.
#[derive(Debug)]
pub struct Dispatcher {
    pub cursor: usize,
    pub sub_list: Vec<Subscriber>,
    pub loop_times: usize,
}

impl Dispatcher {
    /// A dispatcher that starts from the first member of `sub_list`.
    pub fn new(sub_list: Vec<Subscriber>) -> (r: Dispatcher)
        ensures
            r.cursor == 0,
            r.sub_list@ == sub_list@,
            r.loop_times == 0,
    {
        Dispatcher { cursor: 0, sub_list, loop_times: 0 }
    }

    /// Takes up a new record: no member has failed it yet.
    pub fn begin_record(&mut self)
        ensures
            final(self).cursor == old(self).cursor,
            final(self).sub_list@ == old(self).sub_list@,
            final(self).loop_times == 0,
    {
        self.loop_times = 0;
    }

    /// Replaces the member list with a fresh one from the registry and starts
    /// over at its first member. Returns whether the list is empty, in which
    /// case the caller waits briefly before it reads the list again.
    pub fn refresh(&mut self, sub_list: Vec<Subscriber>) -> (empty: bool)
        ensures
            final(self).cursor == 0,
            final(self).sub_list@ == sub_list@,
            final(self).loop_times == old(self).loop_times,
            empty == (sub_list@.len() == 0),
    {
        let empty = sub_list.len() == 0;
        self.sub_list = sub_list;
        self.cursor = 0;
        empty
    }

    /// Picks what to do next for the record in hand. A member is chosen at the
    /// cursor, which then moves past it.
    pub fn next_step(&mut self) -> (r: Step)
        ensures
            final(self).sub_list@ == old(self).sub_list@,
            final(self).loop_times == old(self).loop_times,
            old(self).cursor >= old(self).sub_list@.len() ==> r == Step::Refresh
                && final(self).cursor == old(self).cursor,
            old(self).cursor < old(self).sub_list@.len() && old(self).loop_times
                > old(self).sub_list@.len() ==> r == Step::GiveUp && final(self).cursor
                == old(self).cursor,
            old(self).cursor < old(self).sub_list@.len() && old(self).loop_times
                <= old(self).sub_list@.len() ==> r == Step::Deliver(old(self).cursor)
                && final(self).cursor == old(self).cursor + 1,
    {
        if self.cursor >= self.sub_list.len() {
            return Step::Refresh;
        }
        if self.loop_times > self.sub_list.len() {
            return Step::GiveUp;
        }
        let current = self.cursor;
        self.cursor = current + 1;
        Step::Deliver(current)
    }

    /// The member at position `index` of the list.
    pub fn subscriber(&self, index: usize) -> (r: Subscriber)
        requires
            index < self.sub_list@.len(),
        ensures
            r == self.sub_list@[index as int],
    {
        self.sub_list[index].clone()
    }

    /// A copy of the member list, for the next read cycle.
    pub fn members(&self) -> (r: Vec<Subscriber>)
        ensures
            r@ == self.sub_list@,
    {
        copy_subscribers(&self.sub_list)
    }

    /// Settles an attempt on the record in hand: a failure counts against the
    /// record, and the action says whether its offset is to be committed.
    pub fn settle(&mut self, outcome: Outcome) -> (r: RecordAction)
        ensures
            r == action_for(outcome),
            final(self).cursor == old(self).cursor,
            final(self).sub_list@ == old(self).sub_list@,
            outcome == Outcome::Failed && old(self).loop_times < usize::MAX ==> final(self).loop_times
                == old(self).loop_times + 1,
            outcome == Outcome::Failed && old(self).loop_times == usize::MAX ==> final(self).loop_times
                == old(self).loop_times,
            outcome != Outcome::Failed ==> final(self).loop_times == old(self).loop_times,
    {
        match outcome {
            Outcome::Skipped => RecordAction::Commit,
            Outcome::Delivered(QoS::ExactlyOnce) => RecordAction::Finish,
            Outcome::Delivered(_) => RecordAction::Commit,
            Outcome::Failed => {
                if self.loop_times < usize::MAX {
                    self.loop_times = self.loop_times + 1;
                }
                RecordAction::Retry
            },
            Outcome::Undecodable => RecordAction::CommitAndEndBatch,
        }
    }
}

/// The position that takes a delivery after one at position `p`, on a list of
/// `k` members that stays the same: the cursor moves past `p`, and a cursor
/// at the end of the list starts over from the first member.
pub open spec fn rr_next(p: nat, k: nat) -> nat {
    if p + 1 < k {
        (p + 1) as nat
    } else {
        0
    }
}

/// The position of the member that takes delivery number `j` (from 0), when
/// the dispatcher starts at `cursor` on a list of `k` members that stays the
/// same and every attempt succeeds.
pub open spec fn rr_position(cursor: nat, k: nat, j: nat) -> nat
    decreases j,
{
    if j == 0 {
        if cursor < k {
            cursor
        } else {
            0
        }
    } else {
        rr_next(rr_position(cursor, k, (j - 1) as nat), k)
    }
}

/// How many of the first `n` deliveries go to the member at position `i`.
pub open spec fn rr_count(cursor: nat, k: nat, i: nat, n: nat) -> nat
    decreases n,
{
    if n == 0 {
        0
    } else {
        rr_count(cursor, k, i, (n - 1) as nat) + if rr_position(cursor, k, (n - 1) as nat) == i {
            1nat
        } else {
            0nat
        }
    }
}

/// Whether position `i` lies in the cyclic interval from `s` up to, not
/// including, `p`.
spec fn rr_between(s: nat, i: nat, p: nat) -> bool {
    if s <= p {
        s <= i && i < p
    } else {
        s <= i || i < p
    }
}

/// The length of the cyclic interval from `s` up to `p` on `k` positions.
spec fn rr_span(s: nat, p: nat, k: nat) -> nat {
    if s <= p {
        (p - s) as nat
    } else {
        (k - s + p) as nat
    }
}

/// Full turns of the list completed in the first `n` deliveries.
spec fn rr_rounds(cursor: nat, k: nat, n: nat) -> nat
    decreases n,
{
    if n == 0 {
        0
    } else {
        rr_rounds(cursor, k, (n - 1) as nat) + if rr_position(cursor, k, n) == rr_position(cursor, k, 0) {
            1nat
        } else {
            0nat
        }
    }
}

proof fn lemma_rr_invariant(cursor: nat, k: nat, n: nat)
    requires
        k > 0,
    ensures
        rr_position(cursor, k, n) < k,
        rr_span(rr_position(cursor, k, 0), rr_position(cursor, k, n), k) < k,
        n == rr_rounds(cursor, k, n) * k + rr_span(rr_position(cursor, k, 0), rr_position(cursor, k, n), k),
        forall|i: nat|
            i < k ==> #[trigger] rr_count(cursor, k, i, n) == rr_rounds(cursor, k, n) + if rr_between(
                rr_position(cursor, k, 0),
                i,
                rr_position(cursor, k, n),
            ) {
                1nat
            } else {
                0nat
            },
    decreases n,
{
    let s = rr_position(cursor, k, 0);
    if n == 0 {
        assert(0 * k == 0) by (nonlinear_arith);
    } else {
        let m = (n - 1) as nat;
        lemma_rr_invariant(cursor, k, m);
        let p = rr_position(cursor, k, m);
        let q = rr_position(cursor, k, n);
        let r = rr_rounds(cursor, k, m);
        assert(q == rr_next(p, k));
        if q == s {
            assert(rr_rounds(cursor, k, n) == r + 1);
            assert(rr_span(s, p, k) == k - 1);
            assert((r + 1) * k == r * k + k) by (nonlinear_arith);
            assert forall|i: nat| i < k implies #[trigger] rr_count(cursor, k, i, n) == rr_rounds(cursor, k, n)
                + if rr_between(s, i, q) {
                1nat
            } else {
                0nat
            } by {
                assert(rr_count(cursor, k, i, m) == r + if rr_between(s, i, p) {
                    1nat
                } else {
                    0nat
                });
                assert(i == p || rr_between(s, i, p));
            }
        } else {
            assert(rr_rounds(cursor, k, n) == r);
            assert(rr_span(s, q, k) == rr_span(s, p, k) + 1);
            assert forall|i: nat| i < k implies #[trigger] rr_count(cursor, k, i, n) == rr_rounds(cursor, k, n)
                + if rr_between(s, i, q) {
                1nat
            } else {
                0nat
            } by {
                assert(rr_count(cursor, k, i, m) == r + if rr_between(s, i, p) {
                    1nat
                } else {
                    0nat
                });
            }
        }
    }
}

/// The model follows the cursor as `next_step` and `refresh` move it: from
/// cursor `c` the next delivery goes to `c` where `c < k`, else, after a
/// refresh with the same list, to the first member; and each delivery leaves
/// the cursor one past the position it took, from which the next delivery is
/// found the same way.
pub proof fn lemma_rr_follows_cursor(c: nat, k: nat, j: nat)
    requires
        k > 0,
    ensures
        rr_position(c, k, 0) == (if c < k {
            c
        } else {
            0
        }),
        rr_position(c, k, j + 1) == rr_position((rr_position(c, k, j) + 1) as nat, k, 0),
{
    assert(rr_position(c, k, j + 1) == rr_next(rr_position(c, k, j), k));
}

/// Round-robin fairness: while the member list stays the same and every
/// attempt succeeds, each of the `k` members takes either `n / k` or
/// `n / k + 1` of any `n` consecutive deliveries counted from the cursor.
pub proof fn lemma_round_robin_fair(cursor: nat, k: nat, i: nat, n: nat)
    requires
        k > 0,
        i < k,
    ensures
        n / k <= rr_count(cursor, k, i, n) <= n / k + 1,
{
    lemma_rr_invariant(cursor, k, n);
    let s = rr_position(cursor, k, 0);
    let r = rr_rounds(cursor, k, n);
    let sp = rr_span(s, rr_position(cursor, k, n), k);
    vstd::arithmetic::div_mod::lemma_fundamental_div_mod_converse_div(n as int, k as int, r as int, sp as int);
}

} // verus!
