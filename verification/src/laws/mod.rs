//! What the operations of the library are for: laws that tie their results to their inputs.
pub mod acceptance;
pub mod arena;
pub mod background;
pub mod cache;
pub mod crush;
pub mod duel;
pub mod explore;
pub mod facemash;
pub mod harvest;
pub mod labels;
pub mod limits;
pub mod orchestration;
pub mod order;
pub mod outside;
pub mod pairing;
pub mod quality;
pub mod recents;
pub mod review;
pub mod scope;
pub mod session;
pub mod settings;
pub mod text;
