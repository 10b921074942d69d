//! The number of the pull request of a branch.

use vstd::prelude::*;

use crate::text;
use crate::text::{owned, same};

verus! {

/// How long a PR lookup stays fresh before `PrCache` refetches it, in milliseconds.
/// PR numbers change only on branch switches (already keyed) or when a new PR is
/// created for the current branch: the TTL bounds the latency of that second case.
pub const PR_CACHE_TTL: u64 = 300_000;

/// Single-slot PR-number cache keyed by `(path, branch)` with a TTL. The git
/// poll thread owns one instance and calls [`PrCache::get_or_fetch`] every
/// tick; same-key repeat calls within `PR_CACHE_TTL` return cached values
/// without hitting `gh`.
#[derive(Debug)]
pub struct PrCache {
    entry: Option<PrCacheEntry>,
}

#[derive(Debug)]
struct PrCacheEntry {
    path: String,
    branch: String,
    pr_number: Option<String>,
    cached_at: u64,
}

/// What is remembered of a lookup.
pub struct LookupModel {
    pub path: Seq<char>,
    pub branch: Seq<char>,
    pub pr_number: Option<Seq<char>>,
    pub cached_at: u64,
}

impl View for PrCache {
    type V = Option<LookupModel>;

    closed spec fn view(&self) -> Option<LookupModel> {
        match self.entry {
            Some(entry) => Some(
                LookupModel {
                    path: entry.path@,
                    branch: entry.branch@,
                    pr_number: text::opt(entry.pr_number),
                    cached_at: entry.cached_at,
                },
            ),
            None => None,
        }
    }
}

/// Whether a branch can have a pull request: it is set, and not detached.
pub open spec fn has_branch(branch: Seq<char>) -> bool {
    branch.len() > 0 && branch != "HEAD"@
}

/// The time since an earlier one, or none where that lies ahead.
pub open spec fn time_since(now: u64, earlier: u64) -> int {
    if now >= earlier {
        now - earlier
    } else {
        0
    }
}

/// Whether a lookup answers a question.
pub open spec fn is_fresh(
    entry: Option<LookupModel>,
    path: Seq<char>,
    branch: Seq<char>,
    now: u64,
) -> bool {
    match entry {
        Some(known) => {
            &&& known.path == path
            &&& known.branch == branch
            &&& time_since(now, known.cached_at) < PR_CACHE_TTL
        },
        None => false,
    }
}

impl PrCache {
    /// A cache that holds nothing.
    pub fn new() -> (cache: Self)
        ensures
            cache@ is None,
    {
        PrCache { entry: None }
    }

    /// Return the cached PR number for `(path, branch)` when fresh, otherwise
    /// call `fetcher`, store its result, and return it. Short-circuits to
    /// `None` without invoking the fetcher or touching the cache when the
    /// branch is unset (empty string) or detached (`git rev-parse
    /// --abbrev-ref HEAD` prints the literal `HEAD` in that state) — a PR is
    /// inherently branch-scoped, so there is no meaningful cache key. `now` is in
    /// milliseconds.
    ///
    /// The fetcher must be callable only where it is called.
    pub fn get_or_fetch<F>(&mut self, path: &str, branch: &str, now: u64, fetcher: F) -> (pr: Option<
        String,
    >) where F: FnOnce(&str) -> Option<String>
        requires
            has_branch(branch@) && !is_fresh(old(self)@, path@, branch@, now) ==> call_requires(
                fetcher,
                (path,),
            ),
        ensures
            !has_branch(branch@) ==> pr is None && final(self)@ == old(self)@,
            has_branch(branch@) && is_fresh(old(self)@, path@, branch@, now) ==> {
                &&& text::opt(pr) == old(self)@->0.pr_number
                &&& final(self)@ == old(self)@
            },
            has_branch(branch@) && !is_fresh(old(self)@, path@, branch@, now) ==> {
                &&& call_ensures(fetcher, (path,), pr)
                &&& final(self)@ == Some(
                    LookupModel {
                        path: path@,
                        branch: branch@,
                        pr_number: text::opt(pr),
                        cached_at: now,
                    },
                )
            },
    {
        if branch.is_empty() || same(branch, "HEAD") {
            return None;
        }
        if let Some(entry) = &self.entry {
            let age: u64 = if now >= entry.cached_at {
                now - entry.cached_at
            } else {
                0
            };
            if same(entry.path.as_str(), path) && same(entry.branch.as_str(), branch) && age
                < PR_CACHE_TTL {
                return entry.pr_number.clone();
            }
        }
        let pr = fetcher(path);
        self.entry = Some(
            PrCacheEntry {
                path: owned(path),
                branch: owned(branch),
                pr_number: pr.clone(),
                cached_at: now,
            },
        );
        pr
    }
}

impl Default for PrCache {
    fn default() -> (cache: Self)
        ensures
            cache@ is None,
    {
        PrCache::new()
    }
}

/// A lookup answers the same question until it is too old, whether or not it found
/// a pull request; it answers no other question.
pub proof fn lookup_answers_until_it_is_old(
    lookup: LookupModel,
    path: Seq<char>,
    branch: Seq<char>,
    now: u64,
)
    requires
        now >= lookup.cached_at,
    ensures
        is_fresh(Some(lookup), path, branch, now) <==> path == lookup.path && branch
            == lookup.branch && now < lookup.cached_at + PR_CACHE_TTL,
{
}

/// What was looked up counts for five minutes, for its own checkout and branch.
pub proof fn lookups_last_five_minutes(
    lookup: LookupModel,
    path: Seq<char>,
    branch: Seq<char>,
    now: u64,
)
    requires
        now >= lookup.cached_at,
    ensures
        is_fresh(Some(lookup), path, branch, now) <==> path == lookup.path && branch
            == lookup.branch && now - lookup.cached_at < 300000,
        !is_fresh(None, path, branch, now),
        !has_branch(Seq::<char>::empty()),
        !has_branch("HEAD"@),
        branch.len() > 0 && branch != "HEAD"@ ==> has_branch(branch),
{
}

} // verus!
