//! The toys: which kinds there are, and how each kind moves. Their physics
//! and looks are computed by the caller.

use vstd::prelude::*;

verus! {

#[derive(Clone, Copy, Debug, PartialEq, Eq, Structural)]
pub enum Kind {
    StrawMouse,
    PlushMouse,
    PlaidMouse,
    Squirrel,
    Sardine,
    Candy,
    RedRadish,
    WhiteRadish,
    RedBall,
    BlueBall,
    PinkBall,
    RainbowWand,
    SpringWand,
    MarabouWand,
    Butterfly,
}

pub const KINDS: [Kind; 15] = [
    Kind::StrawMouse,
    Kind::PlushMouse,
    Kind::PlaidMouse,
    Kind::Squirrel,
    Kind::Sardine,
    Kind::Candy,
    Kind::RedRadish,
    Kind::WhiteRadish,
    Kind::RedBall,
    Kind::BlueBall,
    Kind::PinkBall,
    Kind::RainbowWand,
    Kind::SpringWand,
    Kind::MarabouWand,
    Kind::Butterfly,
];

/// Wands that can hang from the pointer.
pub const LEASHES: [Kind; 3] = [Kind::RainbowWand, Kind::SpringWand, Kind::MarabouWand];

#[derive(Clone, Copy, Debug, PartialEq, Eq, Structural)]
pub enum Motion {
    Scurry,
    Roll,
    Hop,
    Dangle,
    Spin,
    /// Hanging from the pointer on a string.
    Leash,
}

/// How a toy of each kind moves once thrown in.
pub open spec fn motion_of(kind: Kind) -> Motion {
    match kind {
        Kind::RedBall | Kind::BlueBall | Kind::PinkBall => Motion::Roll,
        Kind::RedRadish | Kind::WhiteRadish => Motion::Hop,
        Kind::RainbowWand | Kind::SpringWand | Kind::MarabouWand => Motion::Dangle,
        Kind::Butterfly => Motion::Spin,
        _ => Motion::Scurry,
    }
}

impl Kind {
    pub fn motion(self) -> (m: Motion)
        ensures
            m == motion_of(self),
            m != Motion::Leash,
    {
        match self {
            Kind::RedBall | Kind::BlueBall | Kind::PinkBall => Motion::Roll,
            Kind::RedRadish | Kind::WhiteRadish => Motion::Hop,
            Kind::RainbowWand | Kind::SpringWand | Kind::MarabouWand => Motion::Dangle,
            Kind::Butterfly => Motion::Spin,
            _ => Motion::Scurry,
        }
    }
}

/// How toys move: the three balls roll, the two radishes hop, the three
/// wands dangle on their strings, the butterfly circles, and the mice, the
/// squirrel, the sardine and the candy scurry. No toy is thrown in on a
/// leash: only a wand hung from the pointer hangs there.
pub proof fn law_how_toys_move(kind: Kind)
    ensures
        (kind == Kind::RedBall || kind == Kind::BlueBall || kind == Kind::PinkBall)
            <==> motion_of(kind) == Motion::Roll,
        (kind == Kind::RedRadish || kind == Kind::WhiteRadish) <==> motion_of(kind) == Motion::Hop,
        (kind == Kind::RainbowWand || kind == Kind::SpringWand || kind == Kind::MarabouWand)
            <==> motion_of(kind) == Motion::Dangle,
        kind == Kind::Butterfly <==> motion_of(kind) == Motion::Spin,
        (kind == Kind::StrawMouse || kind == Kind::PlushMouse || kind == Kind::PlaidMouse
            || kind == Kind::Squirrel || kind == Kind::Sardine || kind == Kind::Candy) <==> motion_of(
            kind,
        ) == Motion::Scurry,
        motion_of(kind) != Motion::Leash,
        forall|i: int| 0 <= i < 3 ==> motion_of(#[trigger] LEASHES[i]) == Motion::Dangle,
{
}

} // verus!
