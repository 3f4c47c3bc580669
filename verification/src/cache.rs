//! The incremental cache: fully resolved pages keyed by route.
//!
//! A cache entry holds the complete resolved page body — never a
//! placeholder marker — together with the time it was stored, and is served
//! until its configured lifetime runs out. Storing is append-only and the
//! most recent entry for a route wins, which is all the consistency the
//! engine asks of its store: a lookup racing a store may see either entry.

use vstd::prelude::*;

verus! {

/// Age and lifetime of a render, handed to the transport layer so it can
/// set its own caching semantics.
#[derive(Clone, Copy, PartialEq, Eq, Structural)]
pub struct RenderFreshness {
    pub age_secs: u64,
    pub max_age_secs: Option<u64>,
}

impl RenderFreshness {
    /// Freshness of a page rendered right now.
    pub fn now(max_age_secs: Option<u64>) -> (r: RenderFreshness)
        ensures
            r.age_secs == 0,
            r.max_age_secs == max_age_secs,
    {
        RenderFreshness { age_secs: 0, max_age_secs }
    }
}

/// A cached page served for a route.
pub struct CachedRender {
    pub route: String,
    pub freshness: RenderFreshness,
    pub response: String,
}

/// Configuration of the incremental cache: how long an entry stays fresh,
/// if it expires at all.
#[derive(Clone, Copy, PartialEq, Eq, Structural)]
pub struct IncrementalRendererConfig {
    pub invalidate_after_secs: Option<u64>,
}

impl IncrementalRendererConfig {
    /// Build the cache this configuration describes.
    pub fn build(&self) -> (r: IncrementalRenderer)
        ensures
            r.invalidate_after_secs == self.invalidate_after_secs,
            r.entries@ =~= Seq::<CacheEntry>::empty(),
    {
        IncrementalRenderer { entries: Vec::new(), invalidate_after_secs: self.invalidate_after_secs }
    }
}

/// One stored page.
pub struct CacheEntry {
    pub route: String,
    pub response: String,
    pub timestamp_secs: u64,
}

/// The incremental cache itself.
pub struct IncrementalRenderer {
    pub entries: Vec<CacheEntry>,
    pub invalidate_after_secs: Option<u64>,
}

/// The most recently stored body and timestamp for `route`, if any.
pub open spec fn spec_cache_lookup(entries: Seq<CacheEntry>, route: Seq<char>) -> Option<
    (Seq<char>, u64),
>
    decreases entries.len(),
{
    if entries.len() == 0 {
        Option::None
    } else if entries.last().route@ == route {
        Option::Some((entries.last().response@, entries.last().timestamp_secs))
    } else {
        spec_cache_lookup(entries.drop_last(), route)
    }
}

/// The age of an entry stored at `timestamp` when read at `now`; a clock
/// that moved backwards reads as age zero.
pub open spec fn spec_age(timestamp: u64, now: u64) -> u64 {
    if now >= timestamp {
        (now - timestamp) as u64
    } else {
        0
    }
}

/// Whether an entry of that age is still fresh.
pub open spec fn spec_fresh(age: u64, max_age: Option<u64>) -> bool {
    match max_age {
        Option::Some(m) => age <= m,
        Option::None => true,
    }
}

impl IncrementalRenderer {
    /// Look up the fully resolved page stored for `route`, if it is still
    /// fresh at `now`.
    pub fn get(&self, route: &String, now: u64) -> (r: Option<CachedRender>)
        ensures
            match spec_cache_lookup(self.entries@, route@) {
                Option::Some((body, ts)) => {
                    if spec_fresh(spec_age(ts, now), self.invalidate_after_secs) {
                        match r {
                            Option::Some(c) => c.route@ == route@ && c.response@ == body
                                && c.freshness.age_secs == spec_age(ts, now)
                                && c.freshness.max_age_secs == self.invalidate_after_secs,
                            Option::None => false,
                        }
                    } else {
                        r is None
                    }
                },
                Option::None => r is None,
            },
    {
        let n = self.entries.len();
        proof {
            assert(self.entries@.take(n as int) =~= self.entries@);
        }
        let mut i: usize = n;
        while i > 0
            invariant
                i <= n,
                n == self.entries.len(),
                spec_cache_lookup(self.entries@, route@) == spec_cache_lookup(
                    self.entries@.take(i as int),
                    route@,
                ),
            decreases i,
        {
            i = i - 1;
            let entry = &self.entries[i];
            if entry.route.eq(route) {
                proof {
                    assert(self.entries@.take(i + 1).last() == self.entries@[i as int]);
                    assert(spec_cache_lookup(self.entries@, route@) == Option::Some(
                        (entry.response@, entry.timestamp_secs),
                    ));
                }
                let age: u64 = if now >= entry.timestamp_secs {
                    now - entry.timestamp_secs
                } else {
                    0
                };
                let fresh: bool = match self.invalidate_after_secs {
                    Option::Some(m) => age <= m,
                    Option::None => true,
                };
                if fresh {
                    return Option::Some(
                        CachedRender {
                            route: route.clone(),
                            freshness: RenderFreshness {
                                age_secs: age,
                                max_age_secs: self.invalidate_after_secs,
                            },
                            response: entry.response.clone(),
                        },
                    );
                } else {
                    return Option::None;
                }
            }
            proof {
                assert(self.entries@.take(i + 1).drop_last() =~= self.entries@.take(i as int));
            }
        }
        proof {
            assert(self.entries@.take(0) =~= Seq::<CacheEntry>::empty());
        }
        Option::None
    }

    /// Store the fully resolved page for `route`, stamped `now`. The most
    /// recent entry for a route wins every later lookup.
    pub fn cache(&mut self, route: String, html: String, now: u64)
        ensures
            final(self).entries@ == old(self).entries@.push(
                CacheEntry { route, response: html, timestamp_secs: now },
            ),
            final(self).invalidate_after_secs == old(self).invalidate_after_secs,
            spec_cache_lookup(final(self).entries@, route@) == Option::Some((html@, now)),
            forall|other: Seq<char>|
                other != route@ ==> spec_cache_lookup(final(self).entries@, other)
                    == spec_cache_lookup(old(self).entries@, other),
    {
        let ghost r = route@;
        let ghost h = html@;
        self.entries.push(CacheEntry { route, response: html, timestamp_secs: now });
        proof {
            assert forall|other: Seq<char>|
                other != r implies spec_cache_lookup(final(self).entries@, other)
                == spec_cache_lookup(old(self).entries@, other) by {
                assert(final(self).entries@.drop_last() =~= old(self).entries@);
            }
            assert(final(self).entries@.drop_last() =~= old(self).entries@);
        }
    }
}

/// Errors of the incremental renderer: a failure while producing markup, or
/// any other failure around the cache. They are best-effort concerns — a
/// failed cache store never fails the render that produced the page.
pub enum IncrementalRendererError {
    RenderError(String),
    Other(String),
}

impl IncrementalRendererError {
    /// The message carried by the error.
    pub fn message(&self) -> (r: &String)
        ensures
            r@ == self.spec_message(),
    {
        match self {
            IncrementalRendererError::RenderError(m) => m,
            IncrementalRendererError::Other(m) => m,
        }
    }

    /// The message carried by the error.
    pub open spec fn spec_message(&self) -> Seq<char> {
        match self {
            IncrementalRendererError::RenderError(m) => m@,
            IncrementalRendererError::Other(m) => m@,
        }
    }
}

} // verus!
