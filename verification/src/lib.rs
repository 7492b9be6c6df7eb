//! A real-time broadcast hub for a live-event chat overlay: audience members
//! submit short coloured messages ("danmaku") over persistent duplex
//! connections, an operator moderates and maintains a programme schedule,
//! and a dedicated display connection receives approved content for
//! rendering.
//!
//! The crate holds the hub's logic as verified functions over plain values:
//! the framing layer (fragment reassembly and heartbeat), the role handlers,
//! the registries modelled as an explicit shared-state value, the moderation
//! pipeline, the repertoire cache, the lottery block store, and a Mersenne
//! Twister generator. Transport, storage and timers live outside and drive
//! these functions.
pub mod admin;
pub mod chagpt;
pub mod conn;
pub mod constants;
pub mod danmaku;
pub mod db;
pub mod emitter;
pub mod eth;
pub mod hub;
pub mod json;
pub mod mt19937;
pub mod repertoire;
pub mod text;
pub mod ws;
