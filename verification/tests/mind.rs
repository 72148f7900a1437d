use cece::bed::{Bed, BEDS};
use cece::cat::{wand_comes_out, Edge, Facts, Mind, Mode, Rng, Sound, Step};
use cece::sprites::FRAMES;
use cece::toy::{Kind, Motion, KINDS, LEASHES};

fn calm() -> Facts {
    Facts {
        target: true,
        toy: false,
        within_settle: true,
        beyond_settle: false,
        beyond_start: false,
        timer_done: false,
        blocked: None,
        staying: false,
    }
}

#[test]
fn a_new_cat_sits_up_and_is_quiet() {
    let m = Mind::new(8);
    assert_eq!(m.mode, Mode::Alert);
    assert!(!m.washed);
    assert!(m.sounds.is_empty());
    assert_eq!(m.bed, None);
}

#[test]
fn going_to_sleep_picks_a_bed_and_says_so() {
    let mut m = Mind::new(3);
    let mut probe = Rng::new(3);
    let expected = probe.other(4, None);
    m.enter(Mode::Yawn);
    m.enter(Mode::Sleep);
    assert_eq!(m.mode, Mode::Sleep);
    assert_eq!(m.sounds, vec![Sound::Yawn, Sound::Sleep]);
    assert_eq!(m.last_bed, Some(expected));
    assert_eq!(m.bed, Some(BEDS[expected]));
}

#[test]
fn never_the_same_bed_twice() {
    let mut m = Mind::new(11);
    let mut last: Option<Bed> = None;
    for _ in 0..200 {
        m.enter(Mode::Sleep);
        assert_ne!(m.bed, last);
        last = m.bed;
        m.enter(Mode::Startle);
    }
}

#[test]
fn startling_says_awake_and_hush_drops_it() {
    let mut m = Mind::new(1);
    m.enter(Mode::Yawn);
    m.enter(Mode::Startle);
    m.enter(Mode::Startle);
    assert_eq!(m.sounds, vec![Sound::Yawn, Sound::Awake, Sound::Awake]);
    m.hush();
    assert_eq!(m.sounds, vec![Sound::Yawn]);
}

#[test]
fn the_idle_routine_grooms_then_yawns_then_sleeps() {
    for seed in 0..50u64 {
        let mut m = Mind::new(seed);
        let first = m.next_idle();
        assert!(first == Mode::Scratch || first == Mode::Wash);
        m.enter(first);
        let second = m.next_idle();
        assert!(m.washed);
        assert!(second == Mode::Alert || second == Mode::Yawn);
        m.enter(second);
        if second == Mode::Alert {
            // Sitting up from grooming keeps it groomed: next comes the yawn.
            assert!(m.washed);
            assert_eq!(m.next_idle(), Mode::Yawn);
            m.enter(Mode::Yawn);
        }
        assert_eq!(m.next_idle(), Mode::Sleep);
    }
}

#[test]
fn sitting_up_from_a_run_forgets_the_grooming() {
    let mut m = Mind::new(2);
    m.enter(Mode::Wash);
    m.next_idle();
    assert!(m.washed);
    m.enter(Mode::Run);
    m.enter(Mode::Alert);
    assert!(!m.washed);
}

#[test]
fn a_far_cursor_wakes_a_sleeper_with_a_startle() {
    let mut m = Mind::new(4);
    m.enter(Mode::Sleep);
    let far = Facts { within_settle: false, beyond_settle: true, beyond_start: true, ..calm() };
    assert_eq!(m.decide(&far), Step::Enter(Mode::Startle));
    m.enter(Mode::Startle);
    assert_eq!(m.decide(&far), Step::Stay);
    let done = Facts { timer_done: true, ..far };
    assert_eq!(m.decide(&done), Step::Enter(Mode::Run));
    m.enter(Mode::Run);
    assert_eq!(m.decide(&far), Step::Stay);
    assert_eq!(m.decide(&calm()), Step::Enter(Mode::Alert));
}

#[test]
fn an_awake_cat_just_runs() {
    let m = Mind::new(4);
    let far = Facts { within_settle: false, beyond_settle: true, beyond_start: true, ..calm() };
    assert_eq!(m.decide(&far), Step::Enter(Mode::Run));
    let done = Facts { timer_done: true, ..calm() };
    assert_eq!(m.decide(&done), Step::NextIdle);
}

#[test]
fn a_blocked_cursor_is_clawed_at_unless_staying() {
    let mut m = Mind::new(4);
    m.enter(Mode::Run);
    let blocked = Facts { blocked: Some(Edge::Up), ..calm() };
    assert_eq!(m.decide(&blocked), Step::Enter(Mode::Claw(Edge::Up)));
    let staying = Facts { staying: true, ..blocked };
    assert_eq!(m.decide(&staying), Step::Enter(Mode::Alert));
}

#[test]
fn a_caught_toy_is_swatted() {
    let mut m = Mind::new(4);
    m.enter(Mode::Run);
    let caught = Facts { toy: true, ..calm() };
    assert_eq!(m.decide(&caught), Step::Swat);
    m.enter(Mode::Bat(Edge::Left));
    assert_eq!(m.next_idle(), Mode::Alert);
}

#[test]
fn nothing_to_chase_means_no_running() {
    let m = Mind::new(4);
    let nothing = Facts { target: false, beyond_start: true, ..calm() };
    assert_eq!(m.decide(&nothing), Step::Stay);
}

#[test]
fn toys_and_wands_never_repeat() {
    let mut m = Mind::new(9);
    let mut last: Option<Kind> = None;
    for _ in 0..300 {
        let k = m.pick_toy();
        assert!(KINDS.contains(&k));
        assert_ne!(Some(k), last);
        last = Some(k);
    }
    let mut last: Option<Kind> = None;
    for _ in 0..300 {
        let k = m.pick_leash();
        assert!(LEASHES.contains(&k));
        assert_ne!(Some(k), last);
        last = Some(k);
    }
}

#[test]
fn every_pose_frame_is_on_the_sheet() {
    let modes = [
        Mode::Run,
        Mode::Startle,
        Mode::Alert,
        Mode::Scratch,
        Mode::Wash,
        Mode::Yawn,
        Mode::Sleep,
        Mode::Claw(Edge::Up),
        Mode::Claw(Edge::Right),
        Mode::Bat(Edge::Down),
        Mode::Bat(Edge::Left),
    ];
    let mut m = Mind::new(1);
    for mode in modes {
        m.mode = mode;
        for dir in 0..8 {
            for beat in 0..4 {
                for blinking in [false, true] {
                    assert!(FRAMES.contains(&m.frame(dir, beat, blinking)));
                }
            }
        }
    }
}

#[test]
fn pose_frames_by_name() {
    let mut m = Mind::new(1);
    m.mode = Mode::Run;
    assert_eq!(m.frame(0, 0, false), "right1");
    assert_eq!(m.frame(0, 3, false), "right2");
    assert_eq!(m.frame(2, 0, false), "down1");
    assert_eq!(m.frame(6, 1, false), "up2");
    m.mode = Mode::Alert;
    assert_eq!(m.frame(0, 0, true), "awake_blink");
    m.mode = Mode::Yawn;
    assert_eq!(m.frame(0, 0, false), "yawn1");
    assert_eq!(m.frame(0, 0, true), "yawn1_blink");
    assert_eq!(m.frame(0, 1, true), "yawn2");
    assert_eq!(m.frame(0, 2, false), "yawn1_blink");
    m.mode = Mode::Sleep;
    assert_eq!(m.frame(0, 1, false), "sleep2");
    m.mode = Mode::Bat(Edge::Right);
    assert_eq!(m.frame(0, 0, false), "rightclaw1");
    m.mode = Mode::Startle;
    assert_eq!(m.frame(5, 1, true), "awake");
}

#[test]
fn toys_move_by_kind() {
    assert_eq!(Kind::BlueBall.motion(), Motion::Roll);
    assert_eq!(Kind::WhiteRadish.motion(), Motion::Hop);
    assert_eq!(Kind::SpringWand.motion(), Motion::Dangle);
    assert_eq!(Kind::Butterfly.motion(), Motion::Spin);
    assert_eq!(Kind::Sardine.motion(), Motion::Scurry);
    for k in LEASHES {
        assert_eq!(k.motion(), Motion::Dangle);
    }
}

#[test]
fn a_flick_brings_out_a_wand_unless_one_hangs_or_you_type_or_stay() {
    assert!(wand_comes_out(true, true, false, false, false));
    assert!(!wand_comes_out(false, true, false, false, false));
    assert!(!wand_comes_out(true, false, false, false, false));
    assert!(!wand_comes_out(true, true, true, false, false));
    assert!(!wand_comes_out(true, true, false, true, false));
    assert!(!wand_comes_out(true, true, false, false, true));
}

#[test]
fn a_toy_comes_after_a_nap_in_a_round_or_when_asked() {
    let mut m = Mind::new(5);
    // Awake: a long stretch in the mode is no nap.
    assert!(!m.toy_comes_in(true, false, false, false, false, true));
    assert!(m.toy_comes_in(false, true, false, false, false, true));
    assert!(m.toy_comes_in(false, false, true, false, false, true));
    m.enter(Mode::Yawn);
    m.enter(Mode::Sleep);
    assert!(m.toy_comes_in(true, false, false, false, false, true));
    assert!(!m.toy_comes_in(false, false, false, false, false, true));
    // Never a second toy, never while told to stay, never without a monitor.
    assert!(!m.toy_comes_in(true, true, true, true, false, true));
    assert!(!m.toy_comes_in(true, true, true, false, true, true));
    assert!(!m.toy_comes_in(true, true, true, false, false, false));
}

#[test]
fn a_landing_toy_startles_only_a_drowsy_cat() {
    let mut m = Mind::new(9);
    assert_eq!(m.landing(), Step::Stay);
    m.enter(Mode::Yawn);
    assert_eq!(m.landing(), Step::Enter(Mode::Startle));
    m.enter(Mode::Sleep);
    assert_eq!(m.landing(), Step::Enter(Mode::Startle));
    m.enter(Mode::Run);
    assert_eq!(m.landing(), Step::Stay);
}
