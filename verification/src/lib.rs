//! A verified text/comment leaf for a virtual-DOM reconciliation engine.
//!
//! The `dom` module models the host document that the engine mutates: an
//! arena of text and comment nodes hanging under element nodes.  The `vtext`
//! module holds the leaf itself, with the patch / reorder / remove / info
//! protocol that every virtual-node kind of the engine implements.  The
//! `laws` module proves the rendering properties that the protocol promises.

pub mod dom;
pub mod laws;
pub mod vtext;
