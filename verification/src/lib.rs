//! The logic of a desktop status bar, apart from its drawing and its wires.
//!
//! Most of it is the client of the system's network-management service.
//! The client scans for wireless networks ([`scan`]), resolves the active
//! connection ([`active`]), and joins and leaves networks ([`connect`],
//! [`disconnect`]). It never talks to the bus itself: each operation hands
//! out one question at a time and is handed the answer, in the vocabulary of
//! [`bus`]. Reading one access point is in [`decode`]; merging and ranking
//! what was read are in [`catalog`] and [`ranking`].
//!
//! The rest serves the bar's widgets: the rows and glyphs of the wireless
//! widget ([`wifi`]), reading the listings of the system's network tools
//! ([`nmcli`], on top of [`text`]), and the rules of the battery, media,
//! window-title and workspace widgets.

pub mod access_point;
pub mod active;
pub mod battery;
pub mod bus;
pub mod catalog;
pub mod connect;
pub mod decode;
pub mod disconnect;
pub mod media;
pub mod nmcli;
pub mod ranking;
pub mod scan;
pub mod text;
pub mod wifi;
pub mod window_title;
pub mod workspace;
