//! Process configuration, and the request-level clamping of the page
//! limit. The engine never reads ambient state: everything it needs
//! arrives as explicit arguments drawn from this configuration.

use vstd::prelude::*;

verus! {

/// The service's configuration: where to listen, where the store and the
/// templates live, and the paging limits the request layer clamps with.
#[derive(Debug)]
pub struct Args {
    /// Host address to bind to.
    pub address: String,
    /// Port to bind to.
    pub port: u16,
    /// Database url.
    pub database_url: String,
    /// Gallery base URL.
    pub base_url: String,
    /// Default number of photos per gallery page.
    pub default_photos_per_page: u8,
    /// Greatest number of photos per gallery page.
    pub max_photos_per_page: u8,
    /// Path to the template directory.
    pub template_path: String,
}

/// The page limit a request gets: its own, as long as it does not
/// exceed the configured maximum; the configured default when it is
/// absent or exceeds the maximum. The maximum itself is a usable limit.
pub open spec fn selected_limit(requested: Option<u8>, default_per_page: u8, max_per_page: u8) -> u8 {
    match requested {
        Option::Some(n) => if n <= max_per_page {
            n
        } else {
            default_per_page
        },
        Option::None => default_per_page,
    }
}

/// Clamp a requested page limit to the configured bounds.
pub fn select_limit(requested: Option<u8>, default_per_page: u8, max_per_page: u8) -> (r: u8)
    ensures
        r == selected_limit(requested, default_per_page, max_per_page),
{
    match requested {
        Option::Some(n) => if n <= max_per_page {
            n
        } else {
            default_per_page
        },
        Option::None => default_per_page,
    }
}

} // verus!
