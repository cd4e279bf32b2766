//! The verified core of a video editor's media layer.

pub mod alignment_scores;
pub mod alignment_sources;
pub mod args;
pub mod assembled_tracks;
pub mod assembly_sources;
pub mod bound_lanes;
pub mod cache_support;
pub mod decoding;
pub mod digest;
pub mod extraction;
pub mod fdx;
pub mod fountain;
pub mod ids;
pub mod key_parts;
pub mod keyed;
pub mod model;
pub mod order;
pub mod paths;
pub mod music_gen;
pub mod numbers;
pub mod pieces;
pub mod player;
pub mod prerender_effects;
pub mod prerender_filters;
pub mod prerender_geometry;
pub mod prerender_titles;
pub mod probe_cache;
pub mod project_health;
pub mod proxy_cache;
pub mod proxy_files;
pub mod proxy_mirror;
pub mod proxy_names;
pub mod proxy_transcode;
pub mod reference_still;
pub mod render_replace_cache;
pub mod replace_media;
pub mod sam_cache;
pub mod sam_layout;
pub mod scaled;
pub mod script;
pub mod script_align;
pub mod script_assembly;
pub mod sidecars;
pub mod stt_cache;
pub mod text;
pub mod text_shapes;
pub mod thumb_cache;
pub mod thumbnail;
pub mod title_font;
pub mod tracking;
pub mod tracking_bindings;
pub mod tracking_geometry;
pub mod unicode;
pub mod voice_enhance_cache;
pub mod voiceover;
pub mod waveform_cache;
pub mod xml;

use vstd::prelude::*;

verus! {

} // verus!
