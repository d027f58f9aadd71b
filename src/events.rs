use vstd::prelude::*;

verus! {

/// `entity` started to overlap `detected`, which it can see.
#[derive(Clone, Copy, Debug, PartialEq, Eq, Hash, Structural)]
pub struct CollisionBegin {
    pub entity: u64,
    pub detected: u64,
}

/// `entity` still overlaps `detected`, which it can see.
#[derive(Clone, Copy, Debug, PartialEq, Eq, Hash, Structural)]
pub struct CollisionEvent {
    pub entity: u64,
    pub detected: u64,
}

/// `entity` stopped overlapping `left`, which it can see.
#[derive(Clone, Copy, Debug, PartialEq, Eq, Hash, Structural)]
pub struct CollisionEnd {
    pub entity: u64,
    pub left: u64,
}

/// One lifecycle notification of a scan, addressed to its observer.
#[derive(Clone, Copy, Debug, PartialEq, Eq, Hash, Structural)]
pub enum CollisionNotice {
    Begin(CollisionBegin),
    Ongoing(CollisionEvent),
    End(CollisionEnd),
}

impl CollisionNotice {
    /// The entity that receives the notification.
    pub open spec fn observer(self) -> u64 {
        match self {
            CollisionNotice::Begin(e) => e.entity,
            CollisionNotice::Ongoing(e) => e.entity,
            CollisionNotice::End(e) => e.entity,
        }
    }

    /// The entity the notification is about.
    pub open spec fn observed(self) -> u64 {
        match self {
            CollisionNotice::Begin(e) => e.detected,
            CollisionNotice::Ongoing(e) => e.detected,
            CollisionNotice::End(e) => e.left,
        }
    }
}

} // verus!
