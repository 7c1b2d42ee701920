//! The decisions of one resolution attempt: consult the cache, align by
//! season data, fall back to a hash match, and remember what was found.
//!
//! The remote calls happen between these steps, outside this module; each
//! step takes what the previous call returned.
use vstd::prelude::*;

use crate::align::{
    resolution_spec, resolve_by_info, CandidateSeason, EpisodeKind, LocalSeason, Resolved,
    SeasonOffset,
};
use crate::ident::{compose, episode_id, ResolveError};
use crate::linkage::Linkage;
use crate::text::{chars_of, parse_dec, parse_decimal};

verus! {

/// A locally known media item, as the media server describes it.
pub struct LocalItemRef {
    pub host: String,
    pub series_name: String,
    pub kind: EpisodeKind,
    pub season_id: String,
    pub season_index: u64,
    pub episode_index: u64,
    pub item_id: String,
}

impl LocalItemRef {
    /// The key of the item's season in the cache.
    pub open spec fn season_key(&self) -> (Seq<char>, Seq<char>) {
        (self.host@, self.season_id@)
    }

    /// The key of the item in the cache.
    pub open spec fn item_key(&self) -> (Seq<char>, Seq<char>) {
        (self.host@, self.item_id@)
    }
}

/// What the cache alone says about an item.
#[derive(Clone, Copy, Debug, PartialEq, Eq, Structural)]
pub enum Lookup {
    /// The item itself was resolved before.
    Cached(usize),
    /// Its season's offset gives the identifier.
    FromSeason(usize),
    /// Its season's offset leads outside the valid episode numbers.
    Unaligned,
    /// Nothing is known: the remote search is needed.
    Miss,
}

/// The identifier that a season offset gives for local episode `ep`, if
/// it is a valid, nonzero identifier.
pub open spec fn season_episode(off: SeasonOffset, ep: int) -> Option<usize> {
    let e = ep + off.offset;
    if 0 <= e < 10000 && compose(off.anime_id as nat, e as nat) <= usize::MAX && compose(
        off.anime_id as nat,
        e as nat,
    ) != 0 {
        Some(compose(off.anime_id as nat, e as nat) as usize)
    } else {
        None
    }
}

/// What `resolve_cached` finds for an item in a cache.
pub open spec fn lookup_spec(linkage: Linkage, item: LocalItemRef) -> Lookup {
    if linkage.items.view().contains_key(item.item_key()) {
        Lookup::Cached(linkage.items.view()[item.item_key()])
    } else if linkage.seasons.view().contains_key(item.season_key()) {
        match season_episode(
            linkage.seasons.view()[item.season_key()],
            item.episode_index as int,
        ) {
            Some(id) => Lookup::FromSeason(id),
            None => Lookup::Unaligned,
        }
    } else {
        Lookup::Miss
    }
}

/// Answers from the cache where it can, remembering an identifier that a
/// season offset gave for the item.
pub fn resolve_cached(linkage: &mut Linkage, item: &LocalItemRef) -> (r: Lookup)
    requires
        old(linkage).wf(),
    ensures
        final(linkage).wf(),
        r == lookup_spec(*old(linkage), *item),
        final(linkage).seasons.view() == old(linkage).seasons.view(),
        final(linkage).items.view() == (match r {
            Lookup::FromSeason(id) => old(linkage).items.view().insert(item.item_key(), id),
            _ => old(linkage).items.view(),
        }),
{
    if let Some(id) = linkage.get_items(&item.host, &item.item_id) {
        return Lookup::Cached(id);
    }
    let off = match linkage.get_seasons(&item.host, &item.season_id) {
        Some(off) => off,
        None => {
            return Lookup::Miss;
        },
    };
    let e: i128 = item.episode_index as i128 + off.offset as i128;
    if e < 0 || e >= 10000 {
        return Lookup::Unaligned;
    }
    match episode_id(off.anime_id, e as i64) {
        Some(id) => {
            if id == 0 {
                return Lookup::Unaligned;
            }
            linkage.insert_items(&item.host, &item.item_id, id);
            Lookup::FromSeason(id)
        },
        None => Lookup::Unaligned,
    }
}

/// Resolves an item from the remote candidate seasons and the local season
/// summary, and remembers the result: the season offset where the whole
/// season maps by one offset, and the item's identifier.
pub fn resolve_with_info(
    linkage: &mut Linkage,
    item: &LocalItemRef,
    candidates: &Vec<CandidateSeason>,
    local: &Vec<LocalSeason>,
) -> (r: Result<usize, ResolveError>)
    requires
        old(linkage).wf(),
    ensures
        final(linkage).wf(),
        match resolution_spec(
            item.kind,
            candidates@,
            local@,
            item.season_index as int,
            item.episode_index as int,
        ) {
            Err(e) => r == Err::<usize, ResolveError>(e) && *final(linkage) == *old(linkage),
            Ok(res) => if res.episode_id == 0 {
                r == Err::<usize, ResolveError>(ResolveError::NoMatch) && *final(linkage)
                    == *old(linkage)
            } else {
                &&& r == Ok::<usize, ResolveError>(res.episode_id)
                &&& final(linkage).items.view() == old(linkage).items.view().insert(
                    item.item_key(),
                    res.episode_id,
                )
                &&& final(linkage).seasons.view() == (match res.season {
                    Some(so) => old(linkage).seasons.view().insert(item.season_key(), so),
                    None => old(linkage).seasons.view(),
                })
            },
        },
{
    let res: Resolved = match resolve_by_info(
        item.kind,
        item.season_index,
        item.episode_index,
        candidates,
        local,
    ) {
        Ok(res) => res,
        Err(e) => {
            return Err(e);
        },
    };
    if res.episode_id == 0 {
        return Err(ResolveError::NoMatch);
    }
    if let Some(so) = res.season {
        linkage.insert_seasons(&item.host, &item.season_id, so);
    }
    linkage.insert_items(&item.host, &item.item_id, res.episode_id);
    Ok(res.episode_id)
}

/// The season offset that a hash match establishes for the item's season,
/// when it fits.
pub open spec fn hash_offset(id: usize, ep: int) -> Option<SeasonOffset> {
    let off = (id % 10000) - ep;
    if i64::MIN <= off <= i64::MAX {
        Some(SeasonOffset { anime_id: (id / 10000) as u64, offset: off as i64 })
    } else {
        None
    }
}

/// Takes the outcome of a hash match for an item and remembers a match:
/// the season offset it implies and the item's identifier.
pub fn resolve_with_hash(
    linkage: &mut Linkage,
    item: &LocalItemRef,
    outcome: Result<usize, ResolveError>,
) -> (r: Result<usize, ResolveError>)
    requires
        old(linkage).wf(),
    ensures
        final(linkage).wf(),
        match outcome {
            Err(e) => r == Err::<usize, ResolveError>(e) && *final(linkage) == *old(linkage),
            Ok(id) => if id == 0 {
                r == Err::<usize, ResolveError>(ResolveError::NoMatch) && *final(linkage)
                    == *old(linkage)
            } else {
                &&& r == Ok::<usize, ResolveError>(id)
                &&& final(linkage).items.view() == old(linkage).items.view().insert(
                    item.item_key(),
                    id,
                )
                &&& final(linkage).seasons.view() == (match hash_offset(
                    id,
                    item.episode_index as int,
                ) {
                    Some(so) => old(linkage).seasons.view().insert(item.season_key(), so),
                    None => old(linkage).seasons.view(),
                })
            },
        },
{
    let id = match outcome {
        Ok(id) => id,
        Err(e) => {
            return Err(e);
        },
    };
    if id == 0 {
        return Err(ResolveError::NoMatch);
    }
    let off: i128 = (id % 10000) as i128 - item.episode_index as i128;
    if i64::MIN as i128 <= off && off <= i64::MAX as i128 {
        let so = SeasonOffset { anime_id: (id / 10000) as u64, offset: off as i64 };
        linkage.insert_seasons(&item.host, &item.season_id, so);
    }
    linkage.insert_items(&item.host, &item.item_id, id);
    Ok(id)
}

/// Decides the outcome of a hash match from the service's answer: the
/// status, whether it reports a match, and the episode ids it lists.
pub fn match_outcome(status_ok: bool, is_matched: bool, matches: &Vec<usize>) -> (r: Result<
    usize,
    ResolveError,
>)
    ensures
        !status_ok ==> r == Err::<usize, ResolveError>(ResolveError::ServiceError),
        status_ok && (!is_matched || matches@.len() == 0) ==> r == Err::<usize, ResolveError>(
            ResolveError::NoMatch,
        ),
        status_ok && is_matched && matches@.len() == 1 ==> r == Ok::<usize, ResolveError>(
            matches@[0],
        ),
        status_ok && is_matched && matches@.len() > 1 ==> r == Err::<usize, ResolveError>(
            ResolveError::AmbiguousMatch,
        ),
{
    if !status_ok {
        Err(ResolveError::ServiceError)
    } else if !is_matched || matches.len() == 0 {
        Err(ResolveError::NoMatch)
    } else if matches.len() == 1 {
        Ok(matches[0])
    } else {
        Err(ResolveError::AmbiguousMatch)
    }
}

/// Once a resolution has remembered an item's identifier (as
/// `resolve_with_info`, `resolve_with_hash` and `resolve_cached` do on
/// success), resolving the same item again answers that identifier from the
/// cache, with no remote call.
pub proof fn lemma_resolution_idempotent(
    before: Linkage,
    after: Linkage,
    item: LocalItemRef,
    id: usize,
)
    requires
        after.wf(),
        after.items.view() == before.items.view().insert(item.item_key(), id),
    ensures
        lookup_spec(after, item) == Lookup::Cached(id),
{
}

/// How many of the episode numbers are plain decimal numbers.
pub open spec fn numbered_count(numbers: Seq<String>) -> nat
    decreases numbers.len(),
{
    if numbers.len() == 0 {
        0
    } else {
        numbered_count(numbers.drop_last()) + if parse_dec(numbers.last()@) is Some {
            1nat
        } else {
            0nat
        }
    }
}

/// Counts the episodes of an anime whose episode number is a plain
/// number, leaving out specials such as `S1` or `C2`.
pub fn count_numbered_episodes(numbers: &Vec<String>) -> (r: usize)
    ensures
        r == numbered_count(numbers@),
{
    let mut count: usize = 0;
    let mut i: usize = 0;
    while i < numbers.len()
        invariant
            i <= numbers@.len(),
            count == numbered_count(numbers@.take(i as int)),
            count <= i,
        decreases numbers@.len() - i,
    {
        assert(numbers@.take(i + 1).drop_last() =~= numbers@.take(i as int));
        if parse_decimal(&chars_of(numbers[i].as_str())).is_some() {
            count = count + 1;
        }
        i = i + 1;
    }
    assert(numbers@.take(numbers@.len() as int) =~= numbers@);
    count
}

/// What a resolution attempt does next.
#[derive(Clone, Copy, Debug, PartialEq, Eq, Structural)]
pub enum Step {
    /// The identifier is known; `save` says whether the cache changed and
    /// must be written back.
    Done { episode_id: usize, save: bool },
    /// Search the remote database and align by season data.
    Search,
    /// Fall back to matching the content hash.
    HashMatch,
    /// Give up with this error.
    Fail(ResolveError),
}

/// The step after consulting the cache: a cached item needs nothing more, a
/// season offset's answer was recorded and must be saved, an unknown item
/// is searched, and an offset that does not apply falls back to the hash.
pub fn after_lookup(l: Lookup) -> (r: Step)
    ensures
        r == (match l {
            Lookup::Cached(id) => Step::Done { episode_id: id, save: false },
            Lookup::FromSeason(id) => Step::Done { episode_id: id, save: true },
            Lookup::Miss => Step::Search,
            Lookup::Unaligned => Step::HashMatch,
        }),
{
    match l {
        Lookup::Cached(id) => Step::Done { episode_id: id, save: false },
        Lookup::FromSeason(id) => Step::Done { episode_id: id, save: true },
        Lookup::Miss => Step::Search,
        Lookup::Unaligned => Step::HashMatch,
    }
}

/// The step after aligning by season data (or failing to search): a
/// resolved identifier is saved, any failure falls back to the hash.
pub fn after_info(outcome: Result<usize, ResolveError>) -> (r: Step)
    ensures
        r == (match outcome {
            Ok(id) => Step::Done { episode_id: id, save: true },
            Err(_) => Step::HashMatch,
        }),
{
    match outcome {
        Ok(id) => Step::Done { episode_id: id, save: true },
        Err(_) => Step::HashMatch,
    }
}

/// The step after the hash fallback: a match is saved, a failure is final.
pub fn after_hash(outcome: Result<usize, ResolveError>) -> (r: Step)
    ensures
        r == (match outcome {
            Ok(id) => Step::Done { episode_id: id, save: true },
            Err(e) => Step::Fail(e),
        }),
{
    match outcome {
        Ok(id) => Step::Done { episode_id: id, save: true },
        Err(e) => Step::Fail(e),
    }
}

} // verus!
