//! The decision core of a Touch Bar daemon: what the bar shows, what a touch
//! means, and what the companion process may tell it. Reading devices,
//! drawing and floating-point geometry belong to the program around it.
pub mod art_laws;
pub mod bar;
pub mod bar_laws;
pub mod battery;
pub mod button;
pub mod button_laws;
pub mod button_set;
pub mod config;
pub mod config_laws;
pub mod crash;
pub mod critter_laws;
pub mod critters;
pub mod helper_laws;
pub mod helper_link;
pub mod helper_proto;
pub mod key_laws;
pub mod layer;
pub mod layer_config;
pub mod layer_hit;
pub mod layer_laws;
pub mod layer_strip;
pub mod layout;
pub mod layout_laws;
pub mod link_laws;
pub mod moment;
pub mod now_playing;
pub mod paths;
pub mod readout_laws;
pub mod run_laws;
pub mod scalar;
pub mod sliders;
pub mod strip;
pub mod strip_laws;
pub mod text;
pub mod throttle;
pub mod touch_laws;
pub mod touches;
pub mod workspace_laws;
