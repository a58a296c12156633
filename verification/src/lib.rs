pub mod text;
pub mod regions;
pub mod resume;
pub mod domain;
pub mod json;
pub mod matches;
pub mod projection;
pub mod review;
pub mod merge;
pub mod backup;
pub mod observe;
pub mod queue;
pub mod play;
pub mod stream;
pub mod sample;
pub mod files;
pub mod rofl;
pub mod lcu;
pub mod sgp;
pub mod library;
pub mod following;
pub mod resources;
pub mod install;
pub mod discovery;
pub mod schema;
pub mod sync;
pub mod sessions;
pub mod moves;
pub mod playback;
pub mod windows;
pub mod desktop;
pub mod ipc;
pub mod package;
