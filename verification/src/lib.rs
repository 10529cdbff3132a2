//! A terminal renderer's cell pipeline, verified: cell geometry, viewports
//! and docking, subcell rasterization grids, compositing, color
//! quantization, grapheme-aware text wrapping, 2d stamping, render-layer
//! masks, and the decisions a crossterm backend makes about input events
//! and terminal requests.
//!
//! Every module works on plain values - rects, cells, colors, styled text -
//! so the same logic serves a live terminal, a test harness, or anything
//! else that consumes a cell buffer.

pub mod blit;
pub mod braille;
pub mod buffer;
pub mod bui;
pub mod camera;
pub mod color;
pub mod compositor;
pub mod convert;
pub mod cursor;
pub mod draw;
pub mod events;
pub mod geometry;
pub mod grid;
pub mod input;
pub mod labels;
pub mod layers;
pub mod order;
pub mod overlay;
pub mod placement;
pub mod present;
pub mod raster2d;
pub mod render3d;
pub mod shadow;
pub mod sprite2d;
pub mod strings;
pub mod style;
pub mod terminal;
pub mod text;
pub mod uiorder;
pub mod unicode;
pub mod viewport;
pub mod widgets;
