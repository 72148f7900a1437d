//! Sound effects, played on a background thread that owns the audio device.
//! Starting that thread is the caller's part; this decides when to.

use std::sync::mpsc::Sender;

use vstd::prelude::*;

use crate::cat::Sound;

verus! {

#[verifier::external_type_specification]
#[verifier::external_body]
#[verifier::reject_recursive_types(T)]
pub struct ExSender<T>(Sender<T>);

/// The way to the audio thread, with a record of every sound handed to it.
struct Channel {
    tx: Sender<Sound>,
    log: Ghost<Seq<Sound>>,
}

/// Hand `sound` to the audio thread with std's `Sender::send`; the record
/// gains exactly that sound. Whether the thread is still there to receive
/// it is not stated: a closed channel (the thread has gone) is ignored, and
/// the cat is quiet.
#[verifier::external_body]
fn post(ch: &mut Channel, sound: Sound)
    ensures
        final(ch).tx == old(ch).tx,
        final(ch).log@ == old(ch).log@.push(sound),
{
    let _ = ch.tx.send(sound);
}

/// The audio device is opened lazily, on the first sound played while not
/// muted, so a quiet cat never touches it.
pub struct Audio {
    tx: Option<Channel>,
    muted: bool,
}

impl Audio {
    /// The sender to the audio thread, if one has been opened.
    pub closed spec fn channel(&self) -> Option<Sender<Sound>> {
        match self.tx {
            Some(ch) => Some(ch.tx),
            None => None,
        }
    }

    /// Every sound handed to the audio thread so far, oldest first.
    pub closed spec fn sent(&self) -> Seq<Sound> {
        match self.tx {
            Some(ch) => ch.log@,
            None => Seq::empty(),
        }
    }

    /// Whether the cat is muted.
    pub closed spec fn is_muted(&self) -> bool {
        self.muted
    }

    /// Whether the cat is muted.
    pub fn muted(&self) -> (m: bool)
        ensures
            m == self.is_muted(),
    {
        self.muted
    }

    /// Mute or unmute the cat; the audio thread, if open, stays open.
    pub fn set_muted(&mut self, muted: bool)
        ensures
            final(self).is_muted() == muted,
            final(self).channel() == old(self).channel(),
            final(self).sent() == old(self).sent(),
    {
        self.muted = muted;
    }

    pub fn new(muted: bool) -> (a: Audio)
        ensures
            a.is_muted() == muted,
            a.channel() is None,
            a.sent() == Seq::<Sound>::empty(),
    {
        Audio { tx: None, muted }
    }

    /// Play `sound`: nothing while muted; otherwise open the audio thread
    /// with `spawn` if there is none yet (again after a failed try), then
    /// hand it the sound.
    pub fn play<F: FnOnce() -> Option<Sender<Sound>>>(&mut self, sound: Sound, spawn: F)
        requires
            !old(self).is_muted() && old(self).channel() is None ==> spawn.requires(()),
        ensures
            final(self).is_muted() == old(self).is_muted(),
            old(self).is_muted() || old(self).channel() is Some ==> final(self).channel() == old(
                self,
            ).channel(),
            !old(self).is_muted() && old(self).channel() is None ==> spawn.ensures(
                (),
                final(self).channel(),
            ),
            old(self).is_muted() || final(self).channel() is None ==> final(self).sent() == old(
                self,
            ).sent(),
            !old(self).is_muted() && final(self).channel() is Some ==> final(self).sent() == old(
                self,
            ).sent().push(sound),
    {
        if self.muted {
            return;
        }
        if self.tx.is_none() {
            self.tx = match spawn() {
                Some(tx) => Some(Channel { tx, log: Ghost(Seq::empty()) }),
                None => None,
            };
        }
        if let Some(ch) = &mut self.tx {
            post(ch, sound);
        }
    }
}

} // verus!
