use vstd::prelude::*;

verus! {

/// MQTT delivery guarantee of a subscription or a publish.
#[derive(Clone, Copy, Debug, PartialEq, Eq, Structural)]
pub enum QoS {
    AtMostOnce,
    AtLeastOnce,
    ExactlyOnce,
}

impl QoS {
    /// The numeric level of the guarantee: 0, 1 or 2.
    pub open spec fn level(self) -> nat {
        match self {
            QoS::AtMostOnce => 0,
            QoS::AtLeastOnce => 1,
            QoS::ExactlyOnce => 2,
        }
    }

    pub open spec fn from_level(level: nat) -> Option<QoS> {
        if level == 0 {
            Some(QoS::AtMostOnce)
        } else if level == 1 {
            Some(QoS::AtLeastOnce)
        } else if level == 2 {
            Some(QoS::ExactlyOnce)
        } else {
            None
        }
    }

    /// The level as a byte.
    pub fn to_u8(self) -> (r: u8)
        ensures
            r as nat == self.level(),
    {
        match self {
            QoS::AtMostOnce => 0,
            QoS::AtLeastOnce => 1,
            QoS::ExactlyOnce => 2,
        }
    }

    /// The guarantee of a level byte; `None` for a byte above 2.
    pub fn from_u8(level: u8) -> (r: Option<QoS>)
        ensures
            r == QoS::from_level(level as nat),
            r matches Some(q) ==> q.level() == level as nat,
    {
        if level == 0 {
            Some(QoS::AtMostOnce)
        } else if level == 1 {
            Some(QoS::AtLeastOnce)
        } else if level == 2 {
            Some(QoS::ExactlyOnce)
        } else {
            None
        }
    }
}

pub open spec fn min_level(a: nat, b: nat) -> nat {
    if a <= b {
        a
    } else {
        b
    }
}

/// The weaker of two guarantees.
pub fn min_qos(a: QoS, b: QoS) -> (r: QoS)
    ensures
        r.level() == min_level(a.level(), b.level()),
        r == a || r == b,
{
    if a.to_u8() <= b.to_u8() {
        a
    } else {
        b
    }
}

} // verus!
