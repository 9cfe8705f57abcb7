//! A headless UI document model: a tree of addressable elements, a selector
//! language resolved against that tree, and an event dispatcher that turns raw
//! input into an ordered stream of events.
//!
//! The element tree lives in [`tree`], with its mathematical model in
//! [`forest`] and its read-only walks in [`queries`] and [`reach`]. Every
//! element has a leaf of its own in a `taffy` layout tree, which [`layout`]
//! wraps. Selectors are read by [`selectors`] and matched by [`matching`].
//! [`engine`] holds one document instance with its interaction state and
//! event queue, and [`instance`] and [`element`] reach many instances through
//! handles.

pub mod animations;
pub mod chars;
pub mod create;
pub mod document;
pub mod element;
pub mod engine;
pub mod events;
pub mod forest;
pub mod instance;
pub mod json;
pub mod layout;
pub mod matching;
pub mod node;
pub mod queries;
pub mod reach;
pub mod rpc;
pub mod selectors;
pub mod splice;
pub mod style;
pub mod text;
pub mod textops;
pub mod tree;
