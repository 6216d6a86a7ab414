//! Calendar and task logic: what is asked of a provider, what is made of its
//! answers, and what is announced. Nothing here touches the network or the disk.

pub mod backend;
pub mod caldav;
pub mod calendar_laws;
pub mod compose;
pub mod config;
pub mod daemon;
pub mod daemon_laws;
pub mod dav;
pub mod fetching_laws;
pub mod google_laws;
pub mod gws;
pub mod ical;
pub mod ics;
pub mod json;
pub mod model;
pub mod nextcloud_laws;
pub mod reading_laws;
pub mod roundtrip;
pub mod text;
pub mod textmap;
pub mod time;
