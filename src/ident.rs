use vstd::prelude::*;

verus! {

/// Why an episode identifier or a comment could not be produced.
#[derive(Clone, Copy, Debug, PartialEq, Eq, Structural)]
pub enum ResolveError {
    /// Application id or secret is missing: the feature is off.
    ConfigurationError,
    /// The remote service answered with a non-success status.
    ServiceError,
    /// The remote service knows no matching episode.
    NoMatch,
    /// The hash lookup returned more than one episode.
    AmbiguousMatch,
    /// The season data cannot decide the mapping.
    InsufficientInfo,
    /// More than one mapping fits the season data.
    TooManyCandidates,
    /// A comment field or a cached payload is malformed.
    ParseError,
    /// The system clock reads before the Unix epoch.
    ClockError,
}

/// The identifier of episode `episode_number` of `anime_id`.
pub open spec fn compose(anime_id: nat, episode_number: nat) -> nat {
    anime_id * 10000 + episode_number
}

/// Whether `id` is the identifier of episode `episode_number` of `anime_id`.
pub open spec fn decomposes_to(id: int, anime_id: nat, episode_number: nat) -> bool {
    &&& 0 <= episode_number < 10000
    &&& id == compose(anime_id, episode_number)
}

/// Builds the identifier of an episode; `None` when the episode number does
/// not fit in the four reserved digits or the identifier exceeds `usize`.
pub fn episode_id(anime_id: u64, episode_number: i64) -> (r: Option<usize>)
    ensures
        r matches Some(id) <==> (0 <= episode_number < 10000 && compose(
            anime_id as nat,
            episode_number as nat,
        ) <= usize::MAX),
        r matches Some(id) ==> decomposes_to(id as int, anime_id as nat, episode_number as nat),
{
    if episode_number < 0 || episode_number >= 10000 {
        return None;
    }
    let e: u64 = episode_number as u64;
    if anime_id > (usize::MAX as u64 - e) / 10000 {
        return None;
    }
    let id: u64 = anime_id * 10000 + e;
    Some(id as usize)
}

} // verus!
