use std::sync::mpsc;

use cece::cat::Sound;
use cece::sound::Audio;

#[test]
fn a_muted_cat_never_opens_the_device() {
    let mut audio = Audio::new(true);
    audio.play(Sound::Yawn, || panic!("opened the device while muted"));
}

#[test]
fn the_device_opens_once_and_hears_every_sound() {
    let (tx, rx) = mpsc::channel();
    let mut spare = Some(tx);
    let mut audio = Audio::new(false);
    let mut opened = 0;
    for sound in [Sound::Awake, Sound::Sleep, Sound::Yawn] {
        audio.play(sound, || {
            opened += 1;
            spare.take()
        });
    }
    assert_eq!(opened, 1);
    assert_eq!(rx.try_iter().collect::<Vec<_>>(), vec![Sound::Awake, Sound::Sleep, Sound::Yawn]);
}

#[test]
fn a_failed_start_is_tried_again() {
    let mut audio = Audio::new(false);
    let mut tries = 0;
    audio.play(Sound::Awake, || {
        tries += 1;
        None
    });
    audio.play(Sound::Awake, || {
        tries += 1;
        None
    });
    assert_eq!(tries, 2);
}

#[test]
fn unmuting_plays_again() {
    let (tx, rx) = mpsc::channel();
    let mut audio = Audio::new(true);
    audio.play(Sound::Sleep, || None);
    audio.set_muted(false);
    let mut spare = Some(tx);
    audio.play(Sound::Yawn, || spare.take());
    assert_eq!(rx.try_iter().collect::<Vec<_>>(), vec![Sound::Yawn]);
}

#[test]
fn a_muted_cat_sends_nothing_on_an_open_channel() {
    let (tx, rx) = mpsc::channel();
    let mut spare = Some(tx);
    let mut audio = Audio::new(false);
    audio.play(Sound::Awake, || spare.take());
    audio.set_muted(true);
    assert!(audio.muted());
    audio.play(Sound::Sleep, || panic!("opened the device again"));
    audio.set_muted(false);
    audio.play(Sound::Yawn, || panic!("opened the device again"));
    assert_eq!(rx.try_iter().collect::<Vec<_>>(), vec![Sound::Awake, Sound::Yawn]);
}
