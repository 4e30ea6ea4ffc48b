//! Closed enumerations for the room settings: game mode, map and archetype.
//! Values arriving from outside as raw numbers are validated at the service
//! boundary through the `from_u32` constructors; unknown numbers are rejected
//! there before they can reach the store.

use vstd::prelude::*;

verus! {

/// Game mode a room is set to play.
#[derive(Clone, Copy, Debug, PartialEq, Eq, Structural)]
pub enum GameModes {
    Standard,
    Ranked,
}

impl GameModes {
    pub fn from_u32(value: u32) -> (r: Option<GameModes>)
        ensures
            r == GameModes::spec_from_u32(value),
    {
        match value {
            0u32 => Some(GameModes::Standard),
            1u32 => Some(GameModes::Ranked),
            _ => None,
        }
    }

    pub open spec fn spec_from_u32(value: u32) -> Option<GameModes> {
        match value {
            0u32 => Some(GameModes::Standard),
            1u32 => Some(GameModes::Ranked),
            _ => None,
        }
    }

    pub fn to_u32(&self) -> (r: u32)
        ensures
            GameModes::spec_from_u32(r) == Some(*self),
    {
        match self {
            GameModes::Standard => 0u32,
            GameModes::Ranked => 1u32,
        }
    }
}

/// Map a room is set to play on. The map's name doubles as the matchmaking
/// configuration selector handed to the external search.
#[derive(Clone, Copy, Debug, PartialEq, Eq, Structural)]
pub enum Maps {
    Meridian,
    Foundry,
}

impl Maps {
    pub fn from_u32(value: u32) -> (r: Option<Maps>)
        ensures
            r == Maps::spec_from_u32(value),
    {
        match value {
            0u32 => Some(Maps::Meridian),
            1u32 => Some(Maps::Foundry),
            _ => None,
        }
    }

    pub open spec fn spec_from_u32(value: u32) -> Option<Maps> {
        match value {
            0u32 => Some(Maps::Meridian),
            1u32 => Some(Maps::Foundry),
            _ => None,
        }
    }

    pub open spec fn spec_name(self) -> Seq<char> {
        match self {
            Maps::Meridian => "Meridian"@,
            Maps::Foundry => "Foundry"@,
        }
    }

    /// Name of the matchmaking configuration for this map.
    pub fn name(&self) -> (r: String)
        ensures
            r@ == self.spec_name(),
    {
        match self {
            Maps::Meridian => "Meridian".to_owned(),
            Maps::Foundry => "Foundry".to_owned(),
        }
    }
}

/// Role a player selects for their slot.
#[derive(Clone, Copy, Debug, PartialEq, Eq, Structural)]
pub enum Archetypes {
    Assault,
    Support,
    Tank,
    Recon,
}

impl Archetypes {
    pub fn from_u32(value: u32) -> (r: Option<Archetypes>)
        ensures
            r == Archetypes::spec_from_u32(value),
    {
        match value {
            0u32 => Some(Archetypes::Assault),
            1u32 => Some(Archetypes::Support),
            2u32 => Some(Archetypes::Tank),
            3u32 => Some(Archetypes::Recon),
            _ => None,
        }
    }

    pub open spec fn spec_from_u32(value: u32) -> Option<Archetypes> {
        match value {
            0u32 => Some(Archetypes::Assault),
            1u32 => Some(Archetypes::Support),
            2u32 => Some(Archetypes::Tank),
            3u32 => Some(Archetypes::Recon),
            _ => None,
        }
    }

    pub open spec fn spec_to_u32(self) -> u32 {
        match self {
            Archetypes::Assault => 0u32,
            Archetypes::Support => 1u32,
            Archetypes::Tank => 2u32,
            Archetypes::Recon => 3u32,
        }
    }

    pub fn to_u32(&self) -> (r: u32)
        ensures
            r == self.spec_to_u32(),
    {
        match self {
            Archetypes::Assault => 0u32,
            Archetypes::Support => 1u32,
            Archetypes::Tank => 2u32,
            Archetypes::Recon => 3u32,
        }
    }

    /// Archetype a freshly created slot starts with.
    pub fn starting() -> (r: Archetypes)
        ensures
            r == Archetypes::Assault,
    {
        Archetypes::Assault
    }
}

} // verus!
