//! Conversion of ESRI shapefiles to GeoJSON: the decisions, formats and rules.
//!
//! The library touches no file, clock, thread or terminal. What it decides it returns:
//! as a value, as the next state of a machine that a thread around it drives, or as a
//! list of effects to perform. Paths and other texts are strings; their contracts speak
//! of sequences of characters. A coordinate is the bit pattern of its double.

pub mod batch;
pub mod checkpoint;
pub mod cli;
pub mod commands;
pub mod config;
pub mod convert;
pub mod discover;
pub mod effects;
pub mod error;
pub mod features;
pub mod geometry;
pub mod hooks;
pub mod interactive;
pub mod output;
pub mod paths;
pub mod plan;
pub mod properties;
pub mod queue;
pub mod reproject;
pub mod text;
pub mod timestamp;
pub mod worker;
