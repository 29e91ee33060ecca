//! Narrative engine building blocks: story collections and screens, text
//! direction and inline markup helpers, style selector matching.

use vstd::prelude::*;

pub mod rtl;
pub mod strings;
pub mod selector;
pub mod order;
pub mod gallery;
pub mod glossary;
pub mod history;
pub mod screens;
pub mod live2d;
pub mod localization;
pub mod raster;
pub mod ui;
pub mod skip;
pub mod tags;
pub mod ruby;
pub mod icons;
pub mod ops;
pub mod transitions;
pub mod voice;
pub mod host;
pub mod text_kinds;
pub mod style_check;
pub mod save_files;
pub mod po;
pub mod interpolate;
pub mod style_text;
pub mod rollback;
pub mod character;
pub mod checksum;
pub mod say_text;
pub mod story_refs;
pub mod loc_ops;
pub mod script_lex;
pub mod sheet_parse;
pub mod rich_text;
pub mod player;
pub mod script_parse;

verus! {

} // verus!
