//! Read-side query parameters for the dashboard.
//!
//! The HTTP server itself lives outside the library; these are the
//! query shapes and their defaulting rules.

use vstd::prelude::*;

verus! {

/// Query of the trades endpoint.
#[derive(Debug, Clone, Copy, PartialEq, Eq, Structural)]
pub struct TradesQuery {
    pub limit: Option<i64>,
}

/// Query of the opportunities endpoint.
#[derive(Debug, Clone, Copy, PartialEq, Eq, Structural)]
pub struct OpportunitiesQuery {
    pub limit: Option<i64>,
}

/// The effective limit of a query: the given one clamped to `[1, max]`,
/// or the default.
pub fn effective_limit(limit: Option<i64>, default: i64, max: i64) -> (r: i64)
    requires
        1 <= default <= max,
    ensures
        r == (match limit {
            Some(l) => if l < 1 {
                1int
            } else if l > max {
                max as int
            } else {
                l as int
            },
            None => default as int,
        }),
{
    match limit {
        Some(l) => {
            if l < 1 {
                1
            } else if l > max {
                max
            } else {
                l
            }
        }
        None => default,
    }
}

} // verus!
