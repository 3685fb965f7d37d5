pub mod audio;
pub mod clock;
pub mod commands;
pub mod controls;
pub mod cover;
pub mod ctl;
pub mod dispatch;
pub mod ieee;
pub mod ipc;
pub mod lazer;
pub mod loader;
pub mod loading;
pub mod logging;
pub mod pathcache;
pub mod paths;
pub mod playback;
pub mod playlist;
pub mod realm;
pub mod scene;
pub mod seqs;
pub mod session;
pub mod settings;
pub mod skins;
pub mod sorting;
pub mod stable;
pub mod text;
pub mod vfiles;
pub mod wall;
pub mod wav;
pub mod win;
