//! Issue trackers: the issues they hold and the requests they are sent.

pub mod github;
pub mod tracker;
