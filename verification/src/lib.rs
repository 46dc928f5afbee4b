//! A menu and tooltip-overlay layer for an interactive application.
//!
//! The library models the state of the subsystem exactly: a registry of
//! tooltip entries keyed by trigger words, a tokenizer that splits body text
//! into word and delimiter segments, a renderer that turns a body into rows
//! of plain and clickable items, a LIFO stack of the overlays opened by
//! clicking trigger words, and a screen controller that owns the cancel-key
//! policy. A host front end draws the rendered rows and feeds input events
//! back in; everything the subsystem decides is verified here.

pub mod controller;
pub mod overlay;
pub mod registry;
pub mod text;
