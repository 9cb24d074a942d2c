use vstd::prelude::*;

pub mod text;
pub mod icons;
pub mod palette;
pub mod paths;
pub mod desktop;
pub mod naming;
pub mod plugins;
pub mod shell;
pub mod watch;
pub mod overlays;
pub mod presence;
pub mod drag;
pub mod audio;
pub mod pinning;
pub mod exchange;
pub mod diagnostics;
pub mod folders;
pub mod install;
pub mod live2d;
pub mod settings;
pub mod icon_cache;
pub mod mirror;
pub mod merge;
pub mod launcher;
pub mod arrivals;
pub mod rehome;
pub mod icon_upgrade;
pub mod startup;
pub mod renames;
pub mod edits;
pub mod scan;
pub mod app_scan;
pub mod palette_run;
pub mod trust;
pub mod plugin_admin;
pub mod watch_session;
pub mod desk_ops;
pub mod url_icons;
pub mod wave_format;
pub mod manifest;

verus! {
} // verus!
pub mod icon_store;
