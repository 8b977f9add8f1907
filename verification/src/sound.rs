//! Sound identifiers and the fire-and-forget hand-off to the audio
//! subsystem.
//!
//! The audio engine runs outside the simulation; the core only buffers
//! sound requests as plain identifiers, and the frontend drains them.

use vstd::prelude::*;
use crate::common::Error;

verus! {

/// Every sound effect the game can request.
#[derive(Debug, Clone, Copy, PartialEq, Eq, Structural)]
pub enum Sounds {
    Die,
    Eat,
    ShieldUp,
    Fireball,
    Move,
    RoomUnlocked,
    CameraPan,
    Swoop,
    CrtOn,
    CrtClick,
    CrtBuzz,
    Glitch0,
    Glitch1,
    Glitch2,
    Glitch3,
    Glitch4,
    Glitch5,
}

/// How many sounds exist; ids `0..NUM_SOUNDS` convert back.
pub const NUM_SOUNDS: u8 = 17;

impl Sounds {
    /// The sound with a given id; exactly the ids below `NUM_SOUNDS`
    /// convert.
    pub fn try_from_id(value: u8) -> (r: Result<Sounds, Error>)
        ensures
            r == match value {
                0u8 => Ok::<Sounds, Error>(Sounds::Die),
                1u8 => Ok::<Sounds, Error>(Sounds::Eat),
                2u8 => Ok::<Sounds, Error>(Sounds::ShieldUp),
                3u8 => Ok::<Sounds, Error>(Sounds::Fireball),
                4u8 => Ok::<Sounds, Error>(Sounds::Move),
                5u8 => Ok::<Sounds, Error>(Sounds::RoomUnlocked),
                6u8 => Ok::<Sounds, Error>(Sounds::CameraPan),
                7u8 => Ok::<Sounds, Error>(Sounds::Swoop),
                8u8 => Ok::<Sounds, Error>(Sounds::CrtOn),
                9u8 => Ok::<Sounds, Error>(Sounds::CrtClick),
                10u8 => Ok::<Sounds, Error>(Sounds::CrtBuzz),
                11u8 => Ok::<Sounds, Error>(Sounds::Glitch0),
                12u8 => Ok::<Sounds, Error>(Sounds::Glitch1),
                13u8 => Ok::<Sounds, Error>(Sounds::Glitch2),
                14u8 => Ok::<Sounds, Error>(Sounds::Glitch3),
                15u8 => Ok::<Sounds, Error>(Sounds::Glitch4),
                16u8 => Ok::<Sounds, Error>(Sounds::Glitch5),
                _ => Err::<Sounds, Error>(Error::InvalidSoundId),
            },
    {
        match value {
            0 => Ok(Sounds::Die),
            1 => Ok(Sounds::Eat),
            2 => Ok(Sounds::ShieldUp),
            3 => Ok(Sounds::Fireball),
            4 => Ok(Sounds::Move),
            5 => Ok(Sounds::RoomUnlocked),
            6 => Ok(Sounds::CameraPan),
            7 => Ok(Sounds::Swoop),
            8 => Ok(Sounds::CrtOn),
            9 => Ok(Sounds::CrtClick),
            10 => Ok(Sounds::CrtBuzz),
            11 => Ok(Sounds::Glitch0),
            12 => Ok(Sounds::Glitch1),
            13 => Ok(Sounds::Glitch2),
            14 => Ok(Sounds::Glitch3),
            15 => Ok(Sounds::Glitch4),
            16 => Ok(Sounds::Glitch5),
            _ => Err(Error::InvalidSoundId),
        }
    }

    /// Whether this is one of the glitch stingers.
    pub open spec fn is_glitch(self) -> bool {
        self == Sounds::Glitch0 || self == Sounds::Glitch1 || self == Sounds::Glitch2
            || self == Sounds::Glitch3 || self == Sounds::Glitch4 || self == Sounds::Glitch5
    }

    /// A glitch stinger drawn at random.
    pub fn glitch() -> (r: Self)
        ensures
            r.is_glitch(),
    {
        let v = 11 + (crate::rng::random_below(6) as u8);
        match Self::try_from_id(v) {
            Ok(s) => s,
            Err(_) => {
                proof {
                    assert(false);
                }
                Sounds::Glitch0
            },
        }
    }
}

/// The hand-off point to the audio subsystem: requests are buffered as
/// plain identifiers and drained by the frontend, which owns the engine.
#[derive(Debug, Clone, PartialEq, Eq)]
pub struct SoundManager {
    /// Requests not yet handed to the engine, oldest first.
    pub pending: Vec<Sounds>,
}

impl SoundManager {
    pub fn new() -> (r: Self)
        ensures
            r.pending@ == Seq::<Sounds>::empty(),
    {
        let r = SoundManager { pending: Vec::new() };
        proof {
            assert(r.pending@ =~= Seq::<Sounds>::empty());
        }
        r
    }

    /// Requests a sound, fire and forget.
    pub fn play(&mut self, sound: Sounds)
        ensures
            final(self).pending@ == old(self).pending@.push(sound),
    {
        self.pending.push(sound);
    }

    /// A fresh handle for in-simulation code; its requests are drained the
    /// same way.
    pub fn player(&self) -> (r: Player)
        ensures
            r.pending@ == Seq::<Sounds>::empty(),
    {
        let r = Player { pending: Vec::new() };
        proof {
            assert(r.pending@ =~= Seq::<Sounds>::empty());
        }
        r
    }

    /// Hands every buffered request to the caller, oldest first.
    pub fn take_pending(&mut self) -> (r: Vec<Sounds>)
        ensures
            r@ == old(self).pending@,
            final(self).pending@ == Seq::<Sounds>::empty(),
    {
        let mut out: Vec<Sounds> = Vec::new();
        core::mem::swap(&mut out, &mut self.pending);
        proof {
            assert(self.pending@ =~= Seq::<Sounds>::empty());
        }
        out
    }
}

/// A sound-request handle: the value a `Sound` component holds.
#[derive(Debug, Clone, PartialEq, Eq)]
pub struct Player {
    /// Requests not yet handed to the engine, oldest first.
    pub pending: Vec<Sounds>,
}

impl Player {
    /// Requests a sound, fire and forget.
    pub fn play(&mut self, sound: Sounds)
        ensures
            final(self).pending@ == old(self).pending@.push(sound),
    {
        self.pending.push(sound);
    }

    /// Hands every buffered request to the caller, oldest first.
    pub fn take_pending(&mut self) -> (r: Vec<Sounds>)
        ensures
            r@ == old(self).pending@,
            final(self).pending@ == Seq::<Sounds>::empty(),
    {
        let mut out: Vec<Sounds> = Vec::new();
        core::mem::swap(&mut out, &mut self.pending);
        proof {
            assert(self.pending@ =~= Seq::<Sounds>::empty());
        }
        out
    }
}

} // verus!
