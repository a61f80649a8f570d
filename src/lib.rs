//! Nested route matching for single-page applications, with a navigator over session history.

pub mod lemmas;
pub mod matcher;
pub mod navigator;
pub mod utils;

pub use matcher::{MatchError, Route, RouteList, RouteOutput, TreeError};
pub use navigator::{Navigator, NavigatorKind};
