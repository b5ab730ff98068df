//! The name, author and version of the application.

use vstd::prelude::*;

verus! {

/// The name of the application
pub const NAME: &'static str = "cr-tools";

/// The main author of the application
pub const AUTHOR: &'static str = "Bernd-L <git@bernd.pw>";

/// The semantic-version string of the application
pub const VERSION: &'static str = "0.1.0";

/// Describes the application (i.e. its use cases) in a short phrase
pub const ABOUT: &'static str = "A simple calculator for Clash Royale";

} // verus!
