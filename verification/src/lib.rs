//! A bridge between an AllStarLink node (USRP audio over UDP) and the DMR
//! network Brandmeister (Homebrew protocol over UDP).
//!
//! The library holds everything the bridge decides and computes: identifiers,
//! packet formats, forward error correction, the push-to-talk state machine,
//! the login and keepalive rules of the Homebrew client, configuration rules
//! and the bookkeeping around them.  Sockets, files, clocks and the vocoder
//! live outside.

pub mod audio;
pub mod bits;
pub mod bptc;
pub mod brandmeister;
pub mod bytes;
pub mod config;
pub mod dmrd;
pub mod embedded_lc;
pub mod events;
pub mod fec;
pub mod frame;
pub mod homebrew;
pub mod levels;
pub mod provision;
pub mod ptt;
pub mod rates;
pub mod rs;
pub mod stats;
pub mod subscriber;
pub mod sync;
pub mod talker_alias;
pub mod text;
pub mod types;
pub mod usrp;
pub mod usrp_tool;
pub mod usrp_wire;
pub mod voice;
pub mod voice_channel;
pub mod wav;
