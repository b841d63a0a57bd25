//! The simulation engine of an idle game.
//!
//! A player gathers goods, builds producers that turn goods into other goods
//! over time, and mines ores in a minigame. Quantities are exact rationals, and
//! every function states what it computes in a contract that is proved.
//!
//! - `rational`: exact arithmetic, done by `num`.
//! - `goods`: the catalog of goods.
//! - `inventory`: a balance for every good.
//! - `producers`: the catalog of producers and the production step.
//! - `ores`: the ore minigame.
//! - `clock`: wall-clock time turned into ticks.
//! - `element`: what the player has built, with its window.
//! - `game`: the game state and the update of a frame.
pub mod clock;
pub mod element;
pub mod game;
pub mod goods;
pub mod inventory;
pub mod ores;
pub mod producers;
pub mod rational;
