//! The kinds of entities in the game and of scene transitions.
use vstd::prelude::*;

verus! {

/// A kind of entity that scenes can tell apart.
pub trait EntityType {

}

/// The kinds of entities of the game.
#[derive(Debug, PartialEq, Eq, Structural, Clone, Copy)]
pub enum Type {
    Background,
    Player,
    Enemy,
    Menu,
    Controller,
}

impl EntityType for Type {

}

/// The kinds of transitions between scenes.
#[derive(Debug, PartialEq, Eq, Structural, Clone, Copy)]
pub enum TransitionTypes {
    BattleTransition,
}

} // verus!
