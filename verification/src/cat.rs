//! The cat's brain: its random source and the idle routine that decides
//! what it does next.
//!
//! Positions, speeds and timers are measured in the caller; what this module
//! decides is discrete: which mode the cat is in, which mode comes next, what
//! it says on the way and which bed, toy or wand it picks.

use vstd::prelude::*;

use crate::bed::{Bed, BEDS};
use crate::sprites::{frame_name, is_frame};
use crate::toy::{Kind, KINDS, LEASHES};

verus! {

#[derive(Clone, Copy, Debug, PartialEq, Eq, Structural)]
pub enum Sound {
    Awake,
    Yawn,
    Sleep,
}

#[derive(Clone, Copy, Debug, PartialEq, Eq, Structural)]
pub enum Edge {
    Up,
    Right,
    Down,
    Left,
}

#[derive(Clone, Copy, Debug, PartialEq, Eq, Structural)]
pub enum Mode {
    Run,
    /// Woken up: a surprised look and a little jump before running.
    Startle,
    Alert,
    Scratch,
    Wash,
    Yawn,
    Sleep,
    /// Cursor is out of reach past a screen edge: claw at it.
    Claw(Edge),
    /// Swatting the toy mouse.
    Bat(Edge),
}

/// Two to the 53rd: the resolution of a uniform draw.
pub open spec fn two53() -> nat {
    0x20_0000_0000_0000
}

/// The nearest value to `v` that has at most 53 significant bits, ties to
/// even: what `v` becomes as an `f64`. `p` is the weight of the last bit
/// kept, a power of two, found by doubling from 1.
pub open spec fn nearest_at(v: nat, p: nat) -> nat
    decreases v - p,
{
    if p == 0 {
        0
    } else if v / p < two53() {
        let q = v / p;
        let r = v % p;
        if p == 1 {
            v
        } else if r > p / 2 || (r == p / 2 && q % 2 == 1) {
            (q + 1) * p
        } else {
            q * p
        }
    } else if p * 2 <= v {
        nearest_at(v, p * 2)
    } else {
        0
    }
}

/// `v` rounded to the nearest `f64`, as an integer.
pub open spec fn as_double(v: nat) -> nat {
    nearest_at(v, 1)
}

/// The whole part of `draw / 2^53 * m` computed in `f64`: the index that a
/// uniform draw `draw` (below 2^53) picks among `m` choices.
pub open spec fn scaled(draw: nat, m: nat) -> nat {
    as_double(draw * as_double(m)) / two53()
}

/// One xorshift step of the generator's state.
pub open spec fn shuffle(s: u64) -> u64 {
    let a = s ^ (s >> 12u64);
    let b = a ^ (a << 25u64);
    b ^ (b >> 27u64)
}

/// What a raw draw from state `s` returns: the shuffled state, scrambled.
pub open spec fn scramble(s: u64) -> u64 {
    shuffle(s).wrapping_mul(0x2545_f491_4f6c_dd1du64)
}

/// The uniform draw in 0..2^53 made from state `s`.
pub open spec fn draw53(s: u64) -> nat {
    (scramble(s) >> 11u64) as nat
}

/// The index `Rng::other` picks from state `s`.
pub open spec fn other_index(s: u64, n: nat, last: Option<usize>) -> nat {
    match last {
        Some(l) if n > 1 && l < n => ((l + 1 + scaled(draw53(s), (n - 1) as nat) % ((n
            - 1) as nat)) as nat) % n,
        _ => scaled(draw53(s), n) % n,
    }
}

/// xorshift64*, plenty for a cat.
pub struct Rng(u64);

impl View for Rng {
    type V = u64;

    closed spec fn view(&self) -> u64 {
        self.0
    }
}

proof fn lemma_shuffle_nonzero(s: u64)
    requires
        s != 0,
    ensures
        shuffle(s) != 0,
{
    let a = s ^ (s >> 12u64);
    assert(a != 0) by (bit_vector)
        requires
            s != 0,
            a == s ^ (s >> 12u64),
    ;
    let b = a ^ (a << 25u64);
    assert(b != 0) by (bit_vector)
        requires
            a != 0,
            b == a ^ (a << 25u64),
    ;
    let c = b ^ (b >> 27u64);
    assert(c != 0) by (bit_vector)
        requires
            b != 0,
            c == b ^ (b >> 27u64),
    ;
}

proof fn lemma_draw53_bound(s: u64)
    ensures
        draw53(s) < two53(),
{
    let x = scramble(s);
    assert(x >> 11u64 <= 0x1f_ffff_ffff_ffffu64) by (bit_vector);
}

/// The doubling search in `nearest_at` lands where `p * 2^53 > v`.
proof fn lemma_nearest_at_step(v: nat, p: nat)
    requires
        p > 0,
        v / p >= two53(),
    ensures
        p * 0x20_0000_0000_0000 <= v,
        nearest_at(v, p) == nearest_at(v, p * 2),
{
    assert(p * 0x20_0000_0000_0000 <= v) by (nonlinear_arith)
        requires
            v / p >= 0x20_0000_0000_0000,
            p > 0,
    ;
}

/// Rounding to an `f64` at most doubles a value.
proof fn lemma_nearest_at_bound(v: nat, p: nat)
    requires
        p > 0,
        p == 1 || p * 0x10_0000_0000_0000 <= v,
    ensures
        nearest_at(v, p) <= 2 * v,
    decreases v - p,
{
    if v / p < two53() {
        let q = v / p;
        assert(q * p <= v) by (nonlinear_arith)
            requires
                q == v / p,
                p > 0,
        ;
        if p > 1 {
            assert(p <= v) by (nonlinear_arith)
                requires
                    p * 0x10_0000_0000_0000 <= v,
                    p > 1,
            ;
            assert((q + 1) * p == q * p + p) by (nonlinear_arith);
        }
    } else {
        lemma_nearest_at_step(v, p);
        lemma_nearest_at_bound(v, p * 2);
    }
}

/// `v` rounded to the nearest `f64`, computed exactly on integers.
fn to_double(v: u128) -> (r: u128)
    requires
        v < 0x100_0000_0000_0000_0000_0000_0000_0000,
    ensures
        r as nat == as_double(v as nat),
        r <= 2 * v,
{
    proof {
        lemma_nearest_at_bound(v as nat, 1);
    }
    let mut p: u128 = 1;
    while v / p >= 0x20_0000_0000_0000
        invariant
            p > 0,
            p == 1 || p * 0x10_0000_0000_0000 <= v,
            v < 0x100_0000_0000_0000_0000_0000_0000_0000,
            as_double(v as nat) == nearest_at(v as nat, p as nat),
        decreases v - p,
    {
        proof {
            lemma_nearest_at_step(v as nat, p as nat);
        }
        p = p * 2;
    }
    let q = v / p;
    let r = v % p;
    proof {
        assert(q * p <= v) by (nonlinear_arith)
            requires
                q == v / p,
                p > 0,
        ;
        if p > 1 {
            assert(p <= v) by (nonlinear_arith)
                requires
                    p * 0x10_0000_0000_0000 <= v,
                    p > 1,
            ;
        }
    }
    if p == 1 {
        v
    } else if r > p / 2 || (r == p / 2 && q % 2 == 1) {
        (q + 1) * p
    } else {
        q * p
    }
}

impl Rng {
    pub fn new(seed: u64) -> (rng: Rng)
        ensures
            rng@ == seed | 1u64,
            rng@ != 0,
    {
        proof {
            assert(seed | 1u64 != 0) by (bit_vector);
        }
        Rng(seed | 1)
    }

    /// A raw 64-bit draw; the state advances by one xorshift step.
    pub fn raw(&mut self) -> (r: u64)
        ensures
            final(self)@ == shuffle(old(self)@),
            r == scramble(old(self)@),
            old(self)@ != 0 ==> final(self)@ != 0,
    {
        proof {
            if self.0 != 0 {
                lemma_shuffle_nonzero(self.0);
            }
        }
        self.0 = self.0 ^ (self.0 >> 12);
        self.0 = self.0 ^ (self.0 << 25);
        self.0 = self.0 ^ (self.0 >> 27);
        self.0.wrapping_mul(0x2545_f491_4f6c_dd1d)
    }

    /// A uniform draw in 0..2^53; `draw53() / 2^53` is uniform in 0..1.
    pub fn draw53(&mut self) -> (r: u64)
        ensures
            final(self)@ == shuffle(old(self)@),
            r == draw53(old(self)@),
            r < two53(),
            old(self)@ != 0 ==> final(self)@ != 0,
    {
        proof {
            lemma_draw53_bound(self.0);
        }
        self.raw() >> 11
    }

    /// An independent generator seeded from this one.
    pub fn fork(&mut self) -> (rng: Rng)
        ensures
            final(self)@ == shuffle(old(self)@),
            rng@ == scramble(old(self)@) | 1u64,
            rng@ != 0,
            old(self)@ != 0 ==> final(self)@ != 0,
    {
        let seed = self.raw();
        Rng::new(seed)
    }

    /// A random index below `n`, never `last` (when there is a choice).
    /// The index is counted on from `last` in `usize`, so `last + n` must
    /// not overflow it.
    pub fn other(&mut self, n: usize, last: Option<usize>) -> (i: usize)
        requires
            n > 0,
            (match last {
                Some(l) => n > 1 && l < n ==> l + n <= usize::MAX + 1,
                None => true,
            }),
        ensures
            final(self)@ == shuffle(old(self)@),
            i as nat == other_index(old(self)@, n as nat, last),
            i < n,
            fresh(i as nat, last, n as nat),
            old(self)@ != 0 ==> final(self)@ != 0,
    {
        let x = self.draw53();
        match last {
            Some(l) if n > 1 && l < n => {
                let m = (n - 1) as u128;
                let md = to_double(m);
                proof {
                    assert(x as u128 * md <= 0x20_0000_0000_0000u128 * 0x2_0000_0000_0000_0000u128)
                        by (nonlinear_arith)
                        requires
                            x < 0x20_0000_0000_0000u128,
                            md <= 0x2_0000_0000_0000_0000u128,
                    ;
                }
                let prod = to_double(x as u128 * md);
                let s = prod / 0x20_0000_0000_0000;
                let t = s % m;
                let total = l as u128 + 1 + t;
                let i = total % (n as u128);
                proof {
                    assert(t < m);
                    assert(i != l) by (nonlinear_arith)
                        requires
                            t < m,
                            m + 1 == n,
                            l < n,
                            total == l + 1 + t,
                            i == total % (n as u128),
                    ;
                }
                i as usize
            },
            _ => {
                let m = n as u128;
                let md = to_double(m);
                proof {
                    assert(x as u128 * md <= 0x20_0000_0000_0000u128 * 0x2_0000_0000_0000_0000u128)
                        by (nonlinear_arith)
                        requires
                            x < 0x20_0000_0000_0000u128,
                            md <= 0x2_0000_0000_0000_0000u128,
                    ;
                }
                let prod = to_double(x as u128 * md);
                let s = prod / 0x20_0000_0000_0000;
                (s % m) as usize
            },
        }
    }
}

} // verus!

verus! {

/// A draw below this is a coin that comes up heads half the time.
pub const HALF: u64 = 0x10_0000_0000_0000;

/// A draw below this happens with the probability that `0.35` has as an
/// `f64` (it is `0.35 * 2^53`, exactly).
pub const LIKELY_ALERT: u64 = 0xb_3333_3333_3333;

impl Rng {
    /// A uniform draw in 0..1 falls below `bound / 2^53`.
    pub fn chance(&mut self, bound: u64) -> (hit: bool)
        ensures
            final(self)@ == shuffle(old(self)@),
            hit == (draw53(old(self)@) < bound),
            old(self)@ != 0 ==> final(self)@ != 0,
    {
        self.draw53() < bound
    }
}

/// Index `i` is not `last` (when `last` is one of `n` choices, and there is
/// another).
pub open spec fn fresh(i: nat, last: Option<usize>, n: nat) -> bool {
    match last {
        Some(l) => n > 1 && l < n ==> i != l,
        None => true,
    }
}

/// What the cat says on entering `mode`, if anything.
pub open spec fn greeting(mode: Mode) -> Option<Sound> {
    match mode {
        Mode::Yawn => Some(Sound::Yawn),
        Mode::Sleep => Some(Sound::Sleep),
        Mode::Startle => Some(Sound::Awake),
        _ => None,
    }
}

/// Sleeping or about to: a cursor that runs off startles the cat.
pub open spec fn drowsy(mode: Mode) -> bool {
    mode == Mode::Sleep || mode == Mode::Yawn
}

/// Sitting, grooming, sleeping or clawing: anything but running.
pub open spec fn still(mode: Mode) -> bool {
    mode != Mode::Run && mode != Mode::Startle
}

/// The next idle activity after `mode` has run its course, from generator
/// state `s`: the activity, whether the cat has now washed, and the state
/// afterwards.
pub open spec fn after_idle(mode: Mode, washed: bool, s: u64) -> (Mode, bool, u64) {
    match mode {
        Mode::Bat(_) => (Mode::Alert, washed, s),
        Mode::Alert | Mode::Claw(_) => if washed {
            (Mode::Yawn, washed, s)
        } else if draw53(s) < HALF {
            (Mode::Scratch, washed, shuffle(s))
        } else {
            (Mode::Wash, washed, shuffle(s))
        },
        Mode::Scratch | Mode::Wash => if draw53(s) < LIKELY_ALERT {
            (Mode::Alert, true, shuffle(s))
        } else {
            (Mode::Yawn, true, shuffle(s))
        },
        Mode::Yawn => (Mode::Sleep, washed, s),
        other => (other, washed, s),
    }
}

pub const RUN_FRAMES: [[&'static str; 2]; 8] = [
    ["right1", "right2"],
    ["downright1", "downright2"],
    ["down1", "down2"],
    ["downleft1", "downleft2"],
    ["left1", "left2"],
    ["upleft1", "upleft2"],
    ["up1", "up2"],
    ["upright1", "upright2"],
];

/// The two frames of clawing or swatting at `edge`.
pub open spec fn claw_frames(edge: Edge) -> (Seq<char>, Seq<char>) {
    match edge {
        Edge::Up => ("upclaw1"@, "upclaw2"@),
        Edge::Right => ("rightclaw1"@, "rightclaw2"@),
        Edge::Down => ("downclaw1"@, "downclaw2"@),
        Edge::Left => ("leftclaw1"@, "leftclaw2"@),
    }
}

/// The frame the cat shows in `mode`, facing direction `dir` (0 right,
/// counting clockwise in eighths), on beat `beat` of its animation and with
/// its eyes shut or not. A yawn's beats are its stages: 0 opening, 1 wide,
/// 2 closing.
pub open spec fn pose_frame(mode: Mode, dir: int, beat: int, blinking: bool) -> Seq<char> {
    match mode {
        Mode::Run => RUN_FRAMES[dir][beat % 2]@,
        Mode::Startle => "awake"@,
        Mode::Alert => if blinking {
            "awake_blink"@
        } else {
            "awake"@
        },
        Mode::Scratch => if beat % 2 == 0 {
            "scratch1"@
        } else {
            "scratch2"@
        },
        Mode::Wash => "wash"@,
        Mode::Yawn => if beat == 0 {
            if blinking {
                "yawn1_blink"@
            } else {
                "yawn1"@
            }
        } else if beat == 1 {
            "yawn2"@
        } else {
            "yawn1_blink"@
        },
        Mode::Sleep => if beat % 2 == 0 {
            "sleep1"@
        } else {
            "sleep2"@
        },
        Mode::Claw(edge) | Mode::Bat(edge) => if beat % 2 == 0 {
            claw_frames(edge).0
        } else {
            claw_frames(edge).1
        },
    }
}

/// Every frame the cat can show is on the sprite sheet.
proof fn lemma_pose_frames_on_sheet(mode: Mode, dir: int, beat: int, blinking: bool)
    requires
        0 <= dir < 8,
        0 <= beat,
    ensures
        is_frame(pose_frame(mode, dir, beat, blinking)),
{
    assert(frame_name(0) == "awake"@);
    assert(frame_name(1) == "awake_blink"@);
    assert(frame_name(2) == "scratch1"@);
    assert(frame_name(3) == "scratch2"@);
    assert(frame_name(4) == "wash"@);
    assert(frame_name(5) == "yawn1"@);
    assert(frame_name(6) == "yawn1_blink"@);
    assert(frame_name(7) == "yawn2"@);
    assert(frame_name(8) == "sleep1"@);
    assert(frame_name(9) == "sleep2"@);
    assert(frame_name(10) == RUN_FRAMES[6][0]@);
    assert(frame_name(11) == RUN_FRAMES[6][1]@);
    assert(frame_name(12) == RUN_FRAMES[7][0]@);
    assert(frame_name(13) == RUN_FRAMES[7][1]@);
    assert(frame_name(14) == RUN_FRAMES[0][0]@);
    assert(frame_name(15) == RUN_FRAMES[0][1]@);
    assert(frame_name(16) == RUN_FRAMES[1][0]@);
    assert(frame_name(17) == RUN_FRAMES[1][1]@);
    assert(frame_name(18) == RUN_FRAMES[2][0]@);
    assert(frame_name(19) == RUN_FRAMES[2][1]@);
    assert(frame_name(20) == RUN_FRAMES[3][0]@);
    assert(frame_name(21) == RUN_FRAMES[3][1]@);
    assert(frame_name(22) == RUN_FRAMES[4][0]@);
    assert(frame_name(23) == RUN_FRAMES[4][1]@);
    assert(frame_name(24) == RUN_FRAMES[5][0]@);
    assert(frame_name(25) == RUN_FRAMES[5][1]@);
    assert(frame_name(26) == "upclaw1"@);
    assert(frame_name(27) == "upclaw2"@);
    assert(frame_name(28) == "rightclaw1"@);
    assert(frame_name(29) == "rightclaw2"@);
    assert(frame_name(30) == "downclaw1"@);
    assert(frame_name(31) == "downclaw2"@);
    assert(frame_name(32) == "leftclaw1"@);
    assert(frame_name(33) == "leftclaw2"@);
}

/// What the cat sees at one moment, as the caller measured it.
pub struct Facts {
    /// There is somewhere to go: the cursor, or a toy in play.
    pub target: bool,
    /// The target is a toy in play.
    pub toy: bool,
    /// The target is closer than the distance at which the cat settles.
    pub within_settle: bool,
    /// The target is further than the distance at which the cat settles.
    pub beyond_settle: bool,
    /// The target is further than the distance at which the cat sets off.
    pub beyond_start: bool,
    /// The current mode has run for its allotted time.
    pub timer_done: bool,
    /// The screen edge past which the cursor is out of reach, if it is.
    pub blocked: Option<Edge>,
    /// The cat has been told to stay put.
    pub staying: bool,
}

/// What the cat does about what it sees.
#[derive(Clone, Copy, Debug, PartialEq, Eq, Structural)]
pub enum Step {
    /// Carry on as before.
    Stay,
    /// Caught the toy: swat it away.
    Swat,
    /// Switch to this mode.
    Enter(Mode),
    /// The idle activity is over: on to the next one.
    NextIdle,
}

/// The decision the cat in `mode` takes on `facts`.
pub open spec fn decision(mode: Mode, facts: Facts) -> Step {
    match mode {
        Mode::Run => if facts.toy && facts.within_settle {
            Step::Swat
        } else if !facts.target || facts.within_settle {
            match facts.blocked {
                Some(edge) if !facts.staying => Step::Enter(Mode::Claw(edge)),
                _ => Step::Enter(Mode::Alert),
            }
        } else {
            Step::Stay
        },
        Mode::Startle => if facts.timer_done {
            if facts.target && facts.beyond_settle {
                Step::Enter(Mode::Run)
            } else {
                Step::Enter(Mode::Alert)
            }
        } else {
            Step::Stay
        },
        _ => if facts.target && facts.beyond_start {
            if drowsy(mode) {
                Step::Enter(Mode::Startle)
            } else {
                Step::Enter(Mode::Run)
            }
        } else if facts.timer_done {
            Step::NextIdle
        } else {
            Step::Stay
        },
    }
}

/// A wand comes out to hang from the pointer: the pointer is known and was
/// just flicked, no wand hangs from it yet, and nobody is typing or has
/// told the cat to stay. It takes over from any thrown toy.
pub open spec fn wand_due(
    pointer: bool,
    flicked: bool,
    leashed: bool,
    typing: bool,
    staying: bool,
) -> bool {
    pointer && flicked && !leashed && !typing && !staying
}

/// Whether a wand comes out now (see `wand_due`).
pub fn wand_comes_out(pointer: bool, flicked: bool, leashed: bool, typing: bool, staying: bool) -> (b:
    bool)
    ensures
        b == wand_due(pointer, flicked, leashed, typing, staying),
{
    pointer && flicked && !leashed && !typing && !staying
}

/// A toy is thrown in to a cat in `mode`: after a long enough nap, during
/// a round of play, or when asked for; never while a toy is out, while the
/// cat is told to stay, or when there is no monitor to throw it onto.
pub open spec fn toy_due(
    mode: Mode,
    slept_enough: bool,
    round_on: bool,
    asked: bool,
    has_toy: bool,
    staying: bool,
    home: bool,
) -> bool {
    ((mode == Mode::Sleep && slept_enough) || round_on || asked) && !has_toy && !staying && home
}

/// What a cat in `mode` does when a toy lands: a drowsy cat startles.
pub open spec fn landing_step(mode: Mode) -> Step {
    if drowsy(mode) {
        Step::Enter(Mode::Startle)
    } else {
        Step::Stay
    }
}

/// The cat's discrete state: what it is doing, what it has said, and what
/// it picked last.
pub struct Mind {
    pub mode: Mode,
    /// Scratched or washed since it last sat up: next comes a yawn.
    pub washed: bool,
    pub rng: Rng,
    /// Sounds to play, oldest first.
    pub sounds: Vec<Sound>,
    /// Never the same toy, bed or wand twice in a row.
    pub last_toy: Option<usize>,
    pub last_bed: Option<usize>,
    pub last_leash: Option<usize>,
    /// The bed she sleeps in.
    pub bed: Option<Bed>,
}

impl Mind {
    /// A cat sitting up, seeded with `seed`, that has said and picked
    /// nothing yet.
    pub fn new(seed: u64) -> (m: Mind)
        ensures
            m.mode == Mode::Alert,
            !m.washed,
            m.rng@ == seed | 1u64,
            m.sounds@ == Seq::<Sound>::empty(),
            m.last_toy is None,
            m.last_bed is None,
            m.last_leash is None,
            m.bed is None,
    {
        Mind {
            mode: Mode::Alert,
            washed: false,
            rng: Rng::new(seed),
            sounds: Vec::new(),
            last_toy: None,
            last_bed: None,
            last_leash: None,
            bed: None,
        }
    }

    /// Switch to `mode`: say what goes with it, pick a bed (never the last
    /// one) when going to sleep, and forget the grooming when sitting up
    /// from anything but grooming.
    pub fn enter(&mut self, mode: Mode)
        ensures
            final(self).mode == mode,
            final(self).sounds@ == match greeting(mode) {
                Some(s) => old(self).sounds@.push(s),
                None => old(self).sounds@,
            },
            final(self).washed == if mode == Mode::Alert && old(self).mode != Mode::Scratch
                && old(self).mode != Mode::Wash {
                false
            } else {
                old(self).washed
            },
            mode == Mode::Sleep ==> {
                let i = other_index(old(self).rng@, 4, old(self).last_bed);
                &&& final(self).rng@ == shuffle(old(self).rng@)
                &&& final(self).last_bed == Some(i as usize)
                &&& final(self).bed == Some(BEDS[i as int])
                &&& fresh(i, old(self).last_bed, 4)
            },
            mode != Mode::Sleep ==> {
                &&& final(self).rng@ == old(self).rng@
                &&& final(self).last_bed == old(self).last_bed
                &&& final(self).bed == old(self).bed
            },
            final(self).last_toy == old(self).last_toy,
            final(self).last_leash == old(self).last_leash,
    {
        match mode {
            Mode::Yawn => self.sounds.push(Sound::Yawn),
            Mode::Sleep => {
                self.sounds.push(Sound::Sleep);
                let i = self.rng.other(4, self.last_bed);
                self.last_bed = Some(i);
                self.bed = Some(BEDS[i]);
            },
            Mode::Startle => self.sounds.push(Sound::Awake),
            _ => {},
        }
        if mode == Mode::Alert && !(self.mode == Mode::Scratch || self.mode == Mode::Wash) {
            self.washed = false;
        }
        self.mode = mode;
    }

    /// The next idle activity after the current one has run its course.
    /// Grooming marks the cat as washed.
    pub fn next_idle(&mut self) -> (next: Mode)
        ensures
            (next, final(self).washed, final(self).rng@) == after_idle(
                old(self).mode,
                old(self).washed,
                old(self).rng@,
            ),
            final(self).mode == old(self).mode,
            final(self).sounds == old(self).sounds,
            final(self).last_toy == old(self).last_toy,
            final(self).last_bed == old(self).last_bed,
            final(self).last_leash == old(self).last_leash,
            final(self).bed == old(self).bed,
    {
        match self.mode {
            Mode::Bat(_) => Mode::Alert,
            Mode::Alert | Mode::Claw(_) => {
                if self.washed {
                    Mode::Yawn
                } else if self.rng.chance(HALF) {
                    Mode::Scratch
                } else {
                    Mode::Wash
                }
            },
            Mode::Scratch | Mode::Wash => {
                self.washed = true;
                if self.rng.chance(LIKELY_ALERT) {
                    Mode::Alert
                } else {
                    Mode::Yawn
                }
            },
            Mode::Yawn => Mode::Sleep,
            other => other,
        }
    }

    /// Not running: the cat sits, grooms, sleeps or claws.
    pub fn resting(&self) -> (r: bool)
        ensures
            r == still(self.mode),
    {
        !(self.mode == Mode::Run || self.mode == Mode::Startle)
    }

    /// Sleeping or yawning.
    pub fn drowsy(&self) -> (r: bool)
        ensures
            r == drowsy(self.mode),
    {
        self.mode == Mode::Sleep || self.mode == Mode::Yawn
    }

    /// What to do about `facts`.
    pub fn decide(&self, facts: &Facts) -> (step: Step)
        ensures
            step == decision(self.mode, *facts),
    {
        match self.mode {
            Mode::Run => {
                if facts.toy && facts.within_settle {
                    Step::Swat
                } else if !facts.target || facts.within_settle {
                    match facts.blocked {
                        Some(edge) if !facts.staying => Step::Enter(Mode::Claw(edge)),
                        _ => Step::Enter(Mode::Alert),
                    }
                } else {
                    Step::Stay
                }
            },
            Mode::Startle => {
                if facts.timer_done {
                    if facts.target && facts.beyond_settle {
                        Step::Enter(Mode::Run)
                    } else {
                        Step::Enter(Mode::Alert)
                    }
                } else {
                    Step::Stay
                }
            },
            _ => {
                if facts.target && facts.beyond_start {
                    if self.drowsy() {
                        Step::Enter(Mode::Startle)
                    } else {
                        Step::Enter(Mode::Run)
                    }
                } else if facts.timer_done {
                    Step::NextIdle
                } else {
                    Step::Stay
                }
            },
        }
    }

    /// The frame to show, facing direction `dir` (0 right, counting
    /// clockwise in eighths), on beat `beat` of the current animation (for a
    /// yawn, its stage) and with its eyes shut or not. It is always a frame
    /// of the sprite sheet.
    pub fn frame(&self, dir: usize, beat: usize, blinking: bool) -> (f: &'static str)
        requires
            dir < 8,
        ensures
            f@ == pose_frame(self.mode, dir as int, beat as int, blinking),
            is_frame(f@),
            self.mode == Mode::Run ==> f@ == RUN_FRAMES[dir as int][(beat % 2) as int]@,
    {
        proof {
            lemma_pose_frames_on_sheet(self.mode, dir as int, beat as int, blinking);
        }
        let odd = beat % 2 == 1;
        match self.mode {
            Mode::Run => RUN_FRAMES[dir][beat % 2],
            Mode::Startle => "awake",
            Mode::Alert => if blinking {
                "awake_blink"
            } else {
                "awake"
            },
            Mode::Scratch => if odd {
                "scratch2"
            } else {
                "scratch1"
            },
            Mode::Wash => "wash",
            Mode::Yawn => if beat == 0 {
                if blinking {
                    "yawn1_blink"
                } else {
                    "yawn1"
                }
            } else if beat == 1 {
                "yawn2"
            } else {
                "yawn1_blink"
            },
            Mode::Sleep => if odd {
                "sleep2"
            } else {
                "sleep1"
            },
            Mode::Claw(edge) | Mode::Bat(edge) => match edge {
                Edge::Up => if odd {
                    "upclaw2"
                } else {
                    "upclaw1"
                },
                Edge::Right => if odd {
                    "rightclaw2"
                } else {
                    "rightclaw1"
                },
                Edge::Down => if odd {
                    "downclaw2"
                } else {
                    "downclaw1"
                },
                Edge::Left => if odd {
                    "leftclaw2"
                } else {
                    "leftclaw1"
                },
            },
        }
    }

    /// Whether a toy is thrown in now: `slept_enough` says the cat has been
    /// in its current mode as long as it takes to earn a toy, `round_on`
    /// that a round of play is on, `asked` that a toy was asked for (see
    /// `toy_due`).
    pub fn toy_comes_in(
        &self,
        slept_enough: bool,
        round_on: bool,
        asked: bool,
        has_toy: bool,
        staying: bool,
        home: bool,
    ) -> (b: bool)
        ensures
            b == toy_due(self.mode, slept_enough, round_on, asked, has_toy, staying, home),
    {
        ((self.mode == Mode::Sleep && slept_enough) || round_on || asked) && !has_toy && !staying
            && home
    }

    /// What to do as a toy lands nearby.
    pub fn landing(&self) -> (step: Step)
        ensures
            step == landing_step(self.mode),
    {
        if self.drowsy() {
            Step::Enter(Mode::Startle)
        } else {
            Step::Stay
        }
    }

    /// Pick the toy to throw in: never the one thrown last.
    pub fn pick_toy(&mut self) -> (kind: Kind)
        ensures
            ({
                let i = other_index(old(self).rng@, 15, old(self).last_toy);
                &&& final(self).last_toy == Some(i as usize)
                &&& kind == KINDS[i as int]
                &&& fresh(i, old(self).last_toy, 15)
            }),
            final(self).rng@ == shuffle(old(self).rng@),
            final(self).mode == old(self).mode,
            final(self).washed == old(self).washed,
            final(self).sounds == old(self).sounds,
            final(self).last_bed == old(self).last_bed,
            final(self).last_leash == old(self).last_leash,
            final(self).bed == old(self).bed,
    {
        let i = self.rng.other(KINDS.len(), self.last_toy);
        self.last_toy = Some(i);
        KINDS[i]
    }

    /// Pick the wand to hang from the pointer: never the one hung last.
    pub fn pick_leash(&mut self) -> (kind: Kind)
        ensures
            ({
                let i = other_index(old(self).rng@, 3, old(self).last_leash);
                &&& final(self).last_leash == Some(i as usize)
                &&& kind == LEASHES[i as int]
                &&& fresh(i, old(self).last_leash, 3)
            }),
            final(self).rng@ == shuffle(old(self).rng@),
            final(self).mode == old(self).mode,
            final(self).washed == old(self).washed,
            final(self).sounds == old(self).sounds,
            final(self).last_toy == old(self).last_toy,
            final(self).last_bed == old(self).last_bed,
            final(self).bed == old(self).bed,
    {
        let i = self.rng.other(LEASHES.len(), self.last_leash);
        self.last_leash = Some(i);
        LEASHES[i]
    }

    /// Drop the waking meows: a quiet landing for someone who is typing.
    pub fn hush(&mut self)
        ensures
            final(self).sounds@ == old(self).sounds@.filter(|s: Sound| s != Sound::Awake),
            final(self).mode == old(self).mode,
            final(self).washed == old(self).washed,
            final(self).rng@ == old(self).rng@,
            final(self).last_toy == old(self).last_toy,
            final(self).last_bed == old(self).last_bed,
            final(self).last_leash == old(self).last_leash,
            final(self).bed == old(self).bed,
    {
        let mut kept: Vec<Sound> = Vec::new();
        let n = self.sounds.len();
        let mut i: usize = 0;
        while i < n
            invariant
                n == self.sounds@.len(),
                i <= n,
                kept@ == self.sounds@.take(i as int).filter(|s: Sound| s != Sound::Awake),
            decreases n - i,
        {
            let s = self.sounds[i];
            proof {
                reveal_with_fuel(Seq::filter, 1);
                assert(self.sounds@.take(i + 1).drop_last() =~= self.sounds@.take(i as int));
            }
            if s != Sound::Awake {
                kept.push(s);
            }
            i = i + 1;
        }
        proof {
            assert(self.sounds@.take(n as int) =~= self.sounds@);
        }
        self.sounds = kept;
    }
}

} // verus!

verus! {

/// A uniform pick among `n` choices from any generator state is one of
/// them, and never the one picked last when there is another.
pub proof fn law_never_the_same_twice(s: u64, n: nat, last: Option<usize>)
    requires
        n > 0,
    ensures
        other_index(s, n, last) < n,
        fresh(other_index(s, n, last), last, n),
{
    match last {
        Some(l) => {
            if n > 1 && l < n {
                let m = (n - 1) as nat;
                let t = scaled(draw53(s), m) % m;
                let total = l + 1 + t;
                assert(t < m);
                assert(total % (n as int) != l && total % (n as int) < n) by (nonlinear_arith)
                    requires
                        t < m,
                        m + 1 == n,
                        0 <= l < n,
                        0 <= t,
                        total == l + 1 + t,
                ;
            }
        },
        None => {},
    }
}

/// The cat only falls asleep after a yawn: no decision puts it straight to
/// sleep, and the only idle activity that leads to sleep is yawning.
pub proof fn law_sleep_follows_a_yawn(mode: Mode, washed: bool, s: u64, facts: Facts)
    ensures
        decision(mode, facts) != Step::Enter(Mode::Sleep),
        after_idle(mode, washed, s).0 == Mode::Sleep ==> mode == Mode::Yawn || mode == Mode::Sleep,
        mode == Mode::Yawn ==> after_idle(mode, washed, s).0 == Mode::Sleep,
{
}

/// A cat woken by the cursor running off first startles: from sleeping
/// or yawning it never sets straight off at a run.
pub proof fn law_woken_cat_startles(mode: Mode, facts: Facts)
    requires
        drowsy(mode),
    ensures
        decision(mode, facts) != Step::Enter(Mode::Run),
        facts.target && facts.beyond_start ==> decision(mode, facts) == Step::Enter(
            Mode::Startle,
        ),
{
}

/// With nothing to go for (no cursor to chase, as when told to stay or
/// while you type, and no toy), the cat never sets off.
pub proof fn law_nothing_to_chase(mode: Mode, facts: Facts)
    requires
        !facts.target,
        !facts.toy,
    ensures
        decision(mode, facts) != Step::Enter(Mode::Run),
        decision(mode, facts) != Step::Enter(Mode::Startle),
        decision(mode, facts) != Step::Swat,
{
}

/// A cursor out of reach past a screen edge is clawed at once the running
/// cat has come as close as it can, unless it was told to stay; a cat told
/// to stay never claws.
pub proof fn law_claws_at_the_edge(mode: Mode, facts: Facts, edge: Edge)
    ensures
        mode == Mode::Run && facts.target && !facts.toy && facts.within_settle
            && facts.blocked == Some(edge) && !facts.staying ==> decision(mode, facts)
            == Step::Enter(Mode::Claw(edge)),
        facts.staying ==> decision(mode, facts) != Step::Enter(Mode::Claw(edge)),
{
}

/// A cat told to stay gets neither a wand nor a thrown toy, and nobody
/// flicks a wand out while you type.
pub proof fn law_no_play_when_told_to_stay(
    mode: Mode,
    pointer: bool,
    flicked: bool,
    leashed: bool,
    typing: bool,
    slept_enough: bool,
    round_on: bool,
    asked: bool,
    has_toy: bool,
    home: bool,
)
    ensures
        !wand_due(pointer, flicked, leashed, typing, true),
        !toy_due(mode, slept_enough, round_on, asked, has_toy, true, home),
        !wand_due(pointer, flicked, leashed, true, false),
{
}

/// One toy at a time: no toy is thrown while one is out, and no second
/// wand hangs from the pointer. A toy only comes after a long enough nap,
/// during a round of play, or when asked for.
pub proof fn law_one_toy_at_a_time(
    mode: Mode,
    pointer: bool,
    flicked: bool,
    typing: bool,
    staying: bool,
    slept_enough: bool,
    round_on: bool,
    asked: bool,
    has_toy: bool,
    home: bool,
)
    ensures
        !toy_due(mode, slept_enough, round_on, asked, true, staying, home),
        !wand_due(pointer, flicked, true, typing, staying),
        toy_due(mode, slept_enough, round_on, asked, has_toy, staying, home) ==> (mode
            == Mode::Sleep && slept_enough) || round_on || asked,
{
}

/// A landing toy wakes a sleeping or yawning cat with a startle, and
/// leaves any other cat as it is.
pub proof fn law_a_landing_toy_startles_the_drowsy(mode: Mode)
    ensures
        drowsy(mode) ==> landing_step(mode) == Step::Enter(Mode::Startle),
        !drowsy(mode) ==> landing_step(mode) == Step::Stay,
{
}

/// The idle routine: awake, then scratching or washing, then (having
/// groomed) a yawn, then sleep.
pub proof fn law_idle_routine(mode: Mode, washed: bool, s: u64)
    ensures
        mode == Mode::Alert && !washed ==> (after_idle(mode, washed, s).0 == Mode::Scratch
            || after_idle(mode, washed, s).0 == Mode::Wash),
        mode == Mode::Alert && washed ==> after_idle(mode, washed, s).0 == Mode::Yawn,
        (mode == Mode::Scratch || mode == Mode::Wash) ==> after_idle(mode, washed, s).1 && (
        after_idle(mode, washed, s).0 == Mode::Alert || after_idle(mode, washed, s).0
            == Mode::Yawn),
        mode == Mode::Yawn ==> after_idle(mode, washed, s).0 == Mode::Sleep,
{
}

/// What the cat decides, case by case. A running cat swats a toy it has
/// caught; with nothing to run to, or once close, it stops running: it claws
/// at the edge past which the cursor is out of reach (unless told to stay)
/// and otherwise sits up; while still far it keeps running. A startled cat
/// waits out its hop, then runs to a target still beyond settling distance
/// or sits up. Any other cat sets off when the target is beyond starting
/// distance (a sleeping or yawning one with a startle first), moves on to
/// its next idle activity when its time is up, and otherwise carries on.
pub proof fn law_what_the_cat_decides(mode: Mode, facts: Facts)
    ensures
        mode == Mode::Run && facts.toy && facts.within_settle ==> decision(mode, facts)
            == Step::Swat,
        mode == Mode::Run && !(facts.toy && facts.within_settle) && (!facts.target
            || facts.within_settle) ==> decision(mode, facts) == match facts.blocked {
            Some(edge) => if facts.staying {
                Step::Enter(Mode::Alert)
            } else {
                Step::Enter(Mode::Claw(edge))
            },
            None => Step::Enter(Mode::Alert),
        },
        mode == Mode::Run && facts.target && !facts.within_settle ==> decision(mode, facts)
            == Step::Stay,
        mode == Mode::Startle && !facts.timer_done ==> decision(mode, facts) == Step::Stay,
        mode == Mode::Startle && facts.timer_done && facts.target && facts.beyond_settle
            ==> decision(mode, facts) == Step::Enter(Mode::Run),
        mode == Mode::Startle && facts.timer_done && !(facts.target && facts.beyond_settle)
            ==> decision(mode, facts) == Step::Enter(Mode::Alert),
        mode != Mode::Run && mode != Mode::Startle && facts.target && facts.beyond_start ==> (
        decision(mode, facts) == if mode == Mode::Sleep || mode == Mode::Yawn {
            Step::Enter(Mode::Startle)
        } else {
            Step::Enter(Mode::Run)
        }),
        mode != Mode::Run && mode != Mode::Startle && !(facts.target && facts.beyond_start)
            && facts.timer_done ==> decision(mode, facts) == Step::NextIdle,
        mode != Mode::Run && mode != Mode::Startle && !(facts.target && facts.beyond_start)
            && !facts.timer_done ==> decision(mode, facts) == Step::Stay,
{
}

/// A running cat with nothing to chase always stops running.
pub proof fn law_a_runner_with_nothing_to_chase_stops(facts: Facts)
    requires
        !facts.target,
        !facts.toy,
    ensures
        decision(Mode::Run, facts) != Step::Stay,
        decision(Mode::Run, facts) == Step::Enter(Mode::Alert) || (facts.blocked is Some
            && !facts.staying && decision(Mode::Run, facts) == Step::Enter(
            Mode::Claw(facts.blocked->0),
        )),
{
}

/// After clawing at an edge the idle routine goes on as after sitting up:
/// a yawn when groomed, else a coin flip between scratching and washing.
/// The routine never leads to clawing or swatting; a swat is followed by
/// sitting up.
pub proof fn law_idle_after_clawing(mode: Mode, edge: Edge, washed: bool, s: u64)
    ensures
        after_idle(Mode::Claw(edge), washed, s) == after_idle(Mode::Alert, washed, s),
        washed ==> after_idle(Mode::Claw(edge), washed, s) == (Mode::Yawn, washed, s),
        !washed ==> after_idle(Mode::Claw(edge), washed, s) == (
            if draw53(s) < 0x10_0000_0000_0000 {
                Mode::Scratch
            } else {
                Mode::Wash
            },
            false,
            shuffle(s),
        ),
        !(after_idle(mode, washed, s).0 is Claw),
        !(after_idle(mode, washed, s).0 is Bat),
        after_idle(Mode::Bat(edge), washed, s) == (Mode::Alert, washed, s),
        (mode == Mode::Run || mode == Mode::Startle || mode == Mode::Sleep) ==> after_idle(
            mode,
            washed,
            s,
        ) == (mode, washed, s),
{
}

/// Running, the cat shows the two frames of the direction it faces, one per
/// beat: right, down-right, down, down-left, left, up-left, up, up-right for
/// directions 0 to 7.
pub proof fn law_running_frames(dir: int, beat: int, blinking: bool)
    requires
        0 <= dir < 8,
        0 <= beat,
    ensures
        ({
            let f = pose_frame(Mode::Run, dir, beat, blinking);
            let even = beat % 2 == 0;
            &&& dir == 0 ==> f == if even { "right1"@ } else { "right2"@ }
            &&& dir == 1 ==> f == if even { "downright1"@ } else { "downright2"@ }
            &&& dir == 2 ==> f == if even { "down1"@ } else { "down2"@ }
            &&& dir == 3 ==> f == if even { "downleft1"@ } else { "downleft2"@ }
            &&& dir == 4 ==> f == if even { "left1"@ } else { "left2"@ }
            &&& dir == 5 ==> f == if even { "upleft1"@ } else { "upleft2"@ }
            &&& dir == 6 ==> f == if even { "up1"@ } else { "up2"@ }
            &&& dir == 7 ==> f == if even { "upright1"@ } else { "upright2"@ }
        }),
{
}

/// One step of the idle routine from generator state `s`. Sitting up
/// (or after clawing), a groomed cat yawns and keeps the state; otherwise a
/// fresh draw below one half picks scratching, else washing. Grooming marks
/// the cat as groomed and a fresh draw below 0.35 (as an `f64`) sits it up
/// again, else it yawns. A yawn leads to sleep. Only draws advance the state.
pub proof fn law_idle_step(edge: Edge, washed: bool, s: u64)
    ensures
        after_idle(Mode::Alert, true, s) == (Mode::Yawn, true, s),
        after_idle(Mode::Claw(edge), true, s) == (Mode::Yawn, true, s),
        draw53(s) < 0x10_0000_0000_0000 ==> after_idle(Mode::Alert, false, s) == (
            Mode::Scratch,
            false,
            shuffle(s),
        ),
        draw53(s) >= 0x10_0000_0000_0000 ==> after_idle(Mode::Alert, false, s) == (
            Mode::Wash,
            false,
            shuffle(s),
        ),
        draw53(s) < 0xb_3333_3333_3333 ==> after_idle(Mode::Scratch, washed, s) == (
            Mode::Alert,
            true,
            shuffle(s),
        ) && after_idle(Mode::Wash, washed, s) == (Mode::Alert, true, shuffle(s)),
        draw53(s) >= 0xb_3333_3333_3333 ==> after_idle(Mode::Scratch, washed, s) == (
            Mode::Yawn,
            true,
            shuffle(s),
        ) && after_idle(Mode::Wash, washed, s) == (Mode::Yawn, true, shuffle(s)),
        after_idle(Mode::Yawn, washed, s) == (Mode::Sleep, washed, s),
{
}

/// What the cat says: a yawn as it yawns, a sleepy sound as it falls
/// asleep, an awake sound as it is startled, nothing otherwise.
pub proof fn law_what_the_cat_says(mode: Mode)
    ensures
        mode == Mode::Yawn ==> greeting(mode) == Some(Sound::Yawn),
        mode == Mode::Sleep ==> greeting(mode) == Some(Sound::Sleep),
        mode == Mode::Startle ==> greeting(mode) == Some(Sound::Awake),
        mode != Mode::Yawn && mode != Mode::Sleep && mode != Mode::Startle ==> greeting(mode)
            is None,
{
}

/// The frames of a cat that is not running: startled, it looks awake;
/// sitting up, awake or blinking; scratching and sleeping alternate their
/// two frames by beat; washing has one frame; a yawn opens (eyes open or
/// shut), gapes, then closes with eyes shut; clawing or swatting at an edge
/// alternates the two claw frames of that edge.
pub proof fn law_resting_frames(dir: int, beat: int, blinking: bool, edge: Edge)
    requires
        0 <= dir < 8,
        0 <= beat,
    ensures
        pose_frame(Mode::Startle, dir, beat, blinking) == "awake"@,
        pose_frame(Mode::Alert, dir, beat, blinking) == if blinking {
            "awake_blink"@
        } else {
            "awake"@
        },
        pose_frame(Mode::Scratch, dir, beat, blinking) == if beat % 2 == 0 {
            "scratch1"@
        } else {
            "scratch2"@
        },
        pose_frame(Mode::Wash, dir, beat, blinking) == "wash"@,
        beat == 0 ==> pose_frame(Mode::Yawn, dir, beat, blinking) == if blinking {
            "yawn1_blink"@
        } else {
            "yawn1"@
        },
        beat == 1 ==> pose_frame(Mode::Yawn, dir, beat, blinking) == "yawn2"@,
        beat >= 2 ==> pose_frame(Mode::Yawn, dir, beat, blinking) == "yawn1_blink"@,
        pose_frame(Mode::Sleep, dir, beat, blinking) == if beat % 2 == 0 {
            "sleep1"@
        } else {
            "sleep2"@
        },
        ({
            let (one, two) = match edge {
                Edge::Up => ("upclaw1"@, "upclaw2"@),
                Edge::Right => ("rightclaw1"@, "rightclaw2"@),
                Edge::Down => ("downclaw1"@, "downclaw2"@),
                Edge::Left => ("leftclaw1"@, "leftclaw2"@),
            };
            let want = if beat % 2 == 0 {
                one
            } else {
                two
            };
            &&& pose_frame(Mode::Claw(edge), dir, beat, blinking) == want
            &&& pose_frame(Mode::Bat(edge), dir, beat, blinking) == want
        }),
{
}

/// Avoiding the last pick is picking among the other `n - 1` choices,
/// counted on from just after the last pick: the same draw, with one choice
/// fewer, shifted past `last`. Without a last pick (or with one that is no
/// choice at all) the pick is a plain pick among all `n`.
pub proof fn law_other_counts_on_from_last(s: u64, n: nat, l: usize)
    requires
        n > 1,
    ensures
        l < n ==> other_index(s, n, Some(l)) == (l + 1 + other_index(s, (n - 1) as nat, None)) % (
        n as int),
        l >= n ==> other_index(s, n, Some(l)) == other_index(s, n, None),
{
}

} // verus!
