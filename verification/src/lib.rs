//! Decision logic of the picmash image arena.
pub mod acceptance;
pub mod api;
pub mod arena;
pub mod arena_scope;
pub mod arena_session;
pub mod asset_domain;
pub mod cache;
pub mod config;
pub mod crush;
pub mod digest;
pub mod duel;
pub mod explore;
pub mod facemash;
pub mod gate;
pub mod harvest;
pub mod hex;
pub mod identities;
pub mod ids;
pub mod laws;
pub mod lifecycle;
pub mod maintenance;
pub mod model;
pub mod orchestration;
pub mod pairing;
pub mod paths;
pub mod png;
pub mod pool;
pub mod quality;
pub mod rank;
pub mod ready_frontier;
pub mod recents;
pub mod remote_pick;
pub mod runtime;
pub mod scalar;
pub mod text;
pub mod textset;
pub mod texttable;
