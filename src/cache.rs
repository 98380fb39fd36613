use vstd::prelude::*;

use crate::week::opt_view;

verus! {

/// How long, in seconds, built feeds stay valid.
pub const VALIDITY_SECONDS: i64 = 300;

/// A group's built calendar feeds and when they were built, in seconds.
pub struct CalendarCache {
    pub last_updated: Option<i64>,
    pub regular_calendar: Option<String>,
    pub replacements_calendar: Option<String>,
}

/// What a feed request does next.
pub enum FeedStep {
    /// Serve this cached feed.
    Serve(String),
    /// Build the feeds anew, then serve.
    Rebuild,
}

impl Default for CalendarCache {
    fn default() -> (r: CalendarCache)
        ensures
            r.last_updated is None,
            r.regular_calendar is None,
            r.replacements_calendar is None,
    {
        CalendarCache { last_updated: None, regular_calendar: None, replacements_calendar: None }
    }
}

impl CalendarCache {
    /// The feeds are valid at `now`: built at most five minutes before,
    /// and both present.
    pub open spec fn valid_at(&self, now: i64) -> bool {
        &&& self.last_updated is Some
        &&& now - self.last_updated->0 <= VALIDITY_SECONDS
        &&& self.regular_calendar is Some
        &&& self.replacements_calendar is Some
    }

    /// The cached feed of one stream.
    pub open spec fn feed_spec(&self, replacements: bool) -> Option<Seq<char>> {
        if replacements {
            opt_view(self.replacements_calendar)
        } else {
            opt_view(self.regular_calendar)
        }
    }

    /// Whether the feeds are valid at `now`, in seconds.
    pub fn is_valid(&self, now: i64) -> (r: bool)
        ensures
            r == self.valid_at(now),
    {
        match self.last_updated {
            Some(t) => {
                (now as i128) - (t as i128) <= VALIDITY_SECONDS as i128
                    && self.regular_calendar.is_some() && self.replacements_calendar.is_some()
            },
            None => false,
        }
    }

    /// What a request for one stream's feed does at `now`: serve the cached
    /// feed while it is valid, rebuild otherwise.
    pub fn next_step(&self, now: i64, replacements: bool) -> (r: FeedStep)
        ensures
            self.valid_at(now) ==> (r matches FeedStep::Serve(s) && Some(s@) == self.feed_spec(
                replacements,
            )),
            !self.valid_at(now) ==> r is Rebuild,
    {
        if self.is_valid(now) {
            let feed = if replacements {
                self.replacements_calendar.clone()
            } else {
                self.regular_calendar.clone()
            };
            match feed {
                Some(s) => FeedStep::Serve(s),
                None => FeedStep::Rebuild,
            }
        } else {
            FeedStep::Rebuild
        }
    }

    /// Replaces both feeds at once, built at `now`, and returns the one
    /// that was asked for.
    pub fn store(&mut self, regular: String, replacements: String, now: i64, wants_replacements: bool) -> (r: String)
        ensures
            final(self).last_updated == Some(now),
            opt_view(final(self).regular_calendar) == Some(regular@),
            opt_view(final(self).replacements_calendar) == Some(replacements@),
            r@ == if wants_replacements { replacements@ } else { regular@ },
    {
        let r = if wants_replacements { replacements.clone() } else { regular.clone() };
        self.regular_calendar = Some(regular);
        self.replacements_calendar = Some(replacements);
        self.last_updated = Some(now);
        r
    }
}

/// The cache as `store` leaves it.
pub open spec fn stored(c: CalendarCache, regular: Seq<char>, replacements: Seq<char>, now: i64) -> bool {
    &&& c.last_updated == Some(now)
    &&& opt_view(c.regular_calendar) == Some(regular)
    &&& opt_view(c.replacements_calendar) == Some(replacements)
}

/// Feeds just built are served from the cache, without a rebuild, for five
/// minutes; from five minutes and one second on, the next request rebuilds.
pub proof fn lemma_validity_window(c: CalendarCache, regular: Seq<char>, replacements: Seq<char>, built: i64, now: i64)
    requires
        stored(c, regular, replacements, built),
    ensures
        built <= now <= built + VALIDITY_SECONDS ==> c.valid_at(now) && c.feed_spec(false) == Some(
            regular,
        ) && c.feed_spec(true) == Some(replacements),
        now >= built + VALIDITY_SECONDS + 1 ==> !c.valid_at(now),
{
}

/// Callers of one group are served one after the other. Where the first
/// finds the feeds invalid and rebuilds, storing them at `built`, a second
/// that comes within the validity window does not rebuild: it is served the
/// very feeds the first one built.
pub proof fn lemma_single_rebuild(
    before: CalendarCache,
    after: CalendarCache,
    regular: Seq<char>,
    replacements: Seq<char>,
    first: i64,
    built: i64,
    second: i64,
    wants_replacements: bool,
)
    requires
        !before.valid_at(first),
        stored(after, regular, replacements, built),
        first <= built <= second <= built + VALIDITY_SECONDS,
    ensures
        after.valid_at(second),
        after.feed_spec(wants_replacements) == Some(
            if wants_replacements { replacements } else { regular },
        ),
{
}

} // verus!
