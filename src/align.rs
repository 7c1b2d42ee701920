//! Alignment of a local (season, episode) position with the seasons that the
//! remote database reports for the same series.
//!
//! Both sides describe one run of episodes, cut into seasons at different
//! places. Positions are matched through prefix sums of episode counts only.
use vstd::prelude::*;

use crate::ident::{compose, decomposes_to, episode_id, ResolveError};

verus! {

/// How the local library classifies an item.
#[derive(Clone, Copy, Debug, PartialEq, Eq, Structural)]
pub enum EpisodeKind {
    Tv,
    Movie,
    Ova,
}

/// One season as the remote database's search reports it.
#[derive(Clone, Copy, Debug, PartialEq, Eq, Structural)]
pub struct CandidateSeason {
    pub anime_id: u64,
    pub episode_count: u64,
}

/// One season as the local library segments the series.
#[derive(Clone, Copy, Debug, PartialEq, Eq, Structural)]
pub struct LocalSeason {
    pub season_number: u64,
    pub episode_count: u64,
}

/// "Local episode N of this season is remote episode N + offset of anime_id."
#[derive(Clone, Copy, Debug, PartialEq, Eq, Structural)]
pub struct SeasonOffset {
    pub anime_id: u64,
    pub offset: i64,
}

/// What an alignment found: the remote anime and episode number, and
/// whether the whole local season maps onto that anime by one offset.
#[derive(Clone, Copy, Debug, PartialEq, Eq, Structural)]
pub struct Aligned {
    pub anime_id: u64,
    pub episode_number: u128,
    pub uniform: bool,
}

/// A resolved identifier, and the season offset worth remembering, if any.
#[derive(Clone, Copy, Debug, PartialEq, Eq, Structural)]
pub struct Resolved {
    pub episode_id: usize,
    pub season: Option<SeasonOffset>,
}

/// Episodes in the first `k` candidate seasons.
pub open spec fn dan_sum(c: Seq<CandidateSeason>, k: int) -> int
    decreases k,
{
    if k <= 0 {
        0
    } else {
        dan_sum(c, k - 1) + c[k - 1].episode_count
    }
}

/// Episodes in the first `k` local seasons.
pub open spec fn em_sum(l: Seq<LocalSeason>, k: int) -> int
    decreases k,
{
    if k <= 0 {
        0
    } else {
        em_sum(l, k - 1) + l[k - 1].episode_count
    }
}

/// The first `k` candidate seasons end where the first `j` local seasons end.
pub open spec fn boundary(c: Seq<CandidateSeason>, l: Seq<LocalSeason>, k: int, j: int) -> bool {
    &&& 0 <= k <= c.len()
    &&& 0 <= j <= l.len()
    &&& dan_sum(c, k) == em_sum(l, j)
}

/// Candidate season `idx` (0-based), episode `ep`.
pub open spec fn at(c: Seq<CandidateSeason>, idx: int, ep: int, uniform: bool) -> (u64, int, bool) {
    (c[idx].anime_id, ep, uniform)
}

/// Smallest `x` in `from..=i` at which candidate prefix `sn - 1 + x` ends
/// where local season `sn - 1` ends.
pub open spec fn first_x(
    c: Seq<CandidateSeason>,
    l: Seq<LocalSeason>,
    sn: int,
    i: int,
    from: int,
) -> Option<int>
    decreases i + 1 - from,
{
    if from < 0 || from > i {
        None
    } else if boundary(c, l, sn - 1 + from, sn - 1) {
        Some(from)
    } else {
        first_x(c, l, sn, i, from + 1)
    }
}

/// Remote seasons `sn - 1 + x ..= sn - 1 + i` (0-based) cover local season `sn`
/// for some `x`, with `i` within the surplus of remote seasons.
pub open spec fn merge_valid(c: Seq<CandidateSeason>, l: Seq<LocalSeason>, sn: int, i: int) -> bool {
    &&& 0 <= i <= c.len() - l.len()
    &&& boundary(c, l, sn + i, sn)
    &&& first_x(c, l, sn, i, 0) is Some
}

/// Smallest valid offset at or above `from`.
pub open spec fn first_merge(c: Seq<CandidateSeason>, l: Seq<LocalSeason>, sn: int, from: int) -> Option<int>
    decreases c.len() - l.len() + 1 - from,
{
    if from < 0 || from > c.len() - l.len() {
        None
    } else if merge_valid(c, l, sn, from) {
        Some(from)
    } else {
        first_merge(c, l, sn, from + 1)
    }
}

/// Where episode `ep` of local season `sn` falls when it spans remote seasons
/// `sn - 1 + x ..= sn - 1 + i`.
pub open spec fn merge_rule(c: Seq<CandidateSeason>, sn: int, ep: int, i: int, x: int) -> Result<
    (u64, int, bool),
    ResolveError,
> {
    let a = sn - 1 + x;
    if i == x {
        Ok(at(c, sn - 1 + i, ep, true))
    } else if i == x + 1 {
        if ep <= c[a].episode_count {
            Ok(at(c, a, ep, false))
        } else {
            Ok(at(c, a + 1, ep - c[a].episode_count, false))
        }
    } else if i == x + 2 {
        if ep <= c[a].episode_count {
            Ok(at(c, a, ep, false))
        } else if ep <= c[a].episode_count + c[a + 1].episode_count {
            Ok(at(c, a + 1, ep - c[a].episode_count, false))
        } else {
            Ok(at(c, a + 2, ep - c[a].episode_count - c[a + 1].episode_count, false))
        }
    } else {
        Err(ResolveError::TooManyCandidates)
    }
}

/// The remote side has more seasons: a local season may span several.
pub open spec fn merge_spec(c: Seq<CandidateSeason>, l: Seq<LocalSeason>, sn: int, ep: int) -> Result<
    (u64, int, bool),
    ResolveError,
> {
    match first_merge(c, l, sn, 0) {
        None => Err(ResolveError::InsufficientInfo),
        Some(i) => if first_merge(c, l, sn, i + 1) is Some {
            Err(ResolveError::TooManyCandidates)
        } else {
            merge_rule(c, sn, ep, i, first_x(c, l, sn, i, 0)->0)
        },
    }
}

/// The rules tried at remote season `i` (1-based) when the remote side has
/// fewer seasons.
pub open spec fn split_at(c: Seq<CandidateSeason>, l: Seq<LocalSeason>, sn: int, ep: int, i: int) -> Option<
    (u64, int, bool),
> {
    if boundary(c, l, i, sn) && boundary(c, l, i - 1, sn - 1) {
        Some(at(c, i - 1, ep, true))
    } else if boundary(c, l, i, sn) && boundary(c, l, i - 1, sn - 2) {
        Some(at(c, i - 1, ep + l[sn - 2].episode_count, true))
    } else if boundary(c, l, i - 1, sn - 1) && boundary(c, l, i, sn + 1) {
        Some(at(c, i - 1, ep, true))
    } else {
        None
    }
}

/// The first remote season from `from` on at which a rule applies.
pub open spec fn split_first(c: Seq<CandidateSeason>, l: Seq<LocalSeason>, sn: int, ep: int, from: int) -> Option<
    (u64, int, bool),
>
    decreases c.len() + 1 - from,
{
    if from < 1 || from > c.len() {
        None
    } else {
        match split_at(c, l, sn, ep, from) {
            Some(r) => Some(r),
            None => split_first(c, l, sn, ep, from + 1),
        }
    }
}

/// Alignment of a local library whose seasons do not start at season one.
/// Such a summary lacks the prefix that the general search needs, so only
/// the library's last season is aligned: with the remote season right after
/// position `sn` when their counts agree, or with that season and the one
/// before it together when their counts add up. Anything else is left
/// undecided.
pub open spec fn partial_spec(c: Seq<CandidateSeason>, l: Seq<LocalSeason>, sn: int, ep: int) -> Result<
    (u64, int, bool),
    ResolveError,
> {
    let last = l.last();
    if sn != last.season_number || c.len() < last.season_number || sn >= c.len() {
        Err(ResolveError::InsufficientInfo)
    } else if c[sn].episode_count == last.episode_count {
        Ok(at(c, sn, ep, true))
    } else if c[sn].episode_count + c[sn - 1].episode_count == last.episode_count {
        if ep <= c[sn - 1].episode_count {
            Ok(at(c, sn - 1, ep, false))
        } else {
            Ok(at(c, sn, ep - c[sn - 1].episode_count, false))
        }
    } else {
        Err(ResolveError::InsufficientInfo)
    }
}

/// Alignment of episode `ep` of local season `sn` of a series.
pub open spec fn tv_spec(c: Seq<CandidateSeason>, l: Seq<LocalSeason>, sn: int, ep: int) -> Result<
    (u64, int, bool),
    ResolveError,
> {
    if l.len() == 0 || sn < 1 {
        Err(ResolveError::InsufficientInfo)
    } else if c.len() == l.last().season_number {
        if sn <= c.len() {
            Ok(at(c, sn - 1, ep, true))
        } else {
            Err(ResolveError::InsufficientInfo)
        }
    } else if sn <= c.len() && boundary(c, l, sn, sn) {
        Ok(at(c, sn - 1, ep, true))
    } else if l[0].season_number != 1 {
        partial_spec(c, l, sn, ep)
    } else if dan_sum(c, c.len() as int) != em_sum(l, l.len() as int) {
        Err(ResolveError::InsufficientInfo)
    } else if c.len() > l.len() {
        merge_spec(c, l, sn, ep)
    } else if c.len() < l.len() {
        match split_first(c, l, sn, ep, 1) {
            Some(r) => Ok(r),
            None => Err(ResolveError::InsufficientInfo),
        }
    } else {
        Err(ResolveError::InsufficientInfo)
    }
}

/// Remote anime, remote episode number and uniformity for a local item.
pub open spec fn align_spec(
    kind: EpisodeKind,
    c: Seq<CandidateSeason>,
    l: Seq<LocalSeason>,
    sn: int,
    ep: int,
) -> Result<(u64, int, bool), ResolveError> {
    if c.len() == 0 {
        Err(ResolveError::NoMatch)
    } else {
        match kind {
            EpisodeKind::Movie => Ok(at(c, 0, 1, false)),
            EpisodeKind::Ova => if ep < 1 || ep > c.len() {
                Err(ResolveError::InsufficientInfo)
            } else {
                Ok(at(c, ep - 1, ep, false))
            },
            EpisodeKind::Tv => tv_spec(c, l, sn, ep),
        }
    }
}

/// The identifier for an alignment, and the season offset it establishes.
pub open spec fn resolution_spec(
    kind: EpisodeKind,
    c: Seq<CandidateSeason>,
    l: Seq<LocalSeason>,
    sn: int,
    ep: int,
) -> Result<Resolved, ResolveError> {
    match align_spec(kind, c, l, sn, ep) {
        Err(e) => Err(e),
        Ok((a, e, u)) => if 0 <= e < 10000 && compose(a as nat, e as nat) <= usize::MAX {
            Ok(
                Resolved {
                    episode_id: compose(a as nat, e as nat) as usize,
                    season: if u {
                        Some(SeasonOffset { anime_id: a, offset: (e - ep) as i64 })
                    } else {
                        None
                    },
                },
            )
        } else {
            Err(ResolveError::InsufficientInfo)
        },
    }
}

proof fn lemma_dan_sum_bound(c: Seq<CandidateSeason>, k: int)
    requires
        0 <= k <= c.len(),
    ensures
        0 <= dan_sum(c, k) <= k * (u64::MAX as int),
    decreases k,
{
    if k > 0 {
        lemma_dan_sum_bound(c, k - 1);
    }
}

proof fn lemma_em_sum_bound(l: Seq<LocalSeason>, k: int)
    requires
        0 <= k <= l.len(),
    ensures
        0 <= em_sum(l, k) <= k * (u64::MAX as int),
    decreases k,
{
    if k > 0 {
        lemma_em_sum_bound(l, k - 1);
    }
}

/// The prefix sums of both season lists, index `k` holding the first `k`.
pub open spec fn sums_ok(
    c: Seq<CandidateSeason>,
    l: Seq<LocalSeason>,
    dan: Seq<u128>,
    em: Seq<u128>,
) -> bool {
    &&& dan.len() == c.len() + 1
    &&& em.len() == l.len() + 1
    &&& forall|k: int| 0 <= k <= c.len() ==> dan[k] == dan_sum(c, k)
    &&& forall|k: int| 0 <= k <= l.len() ==> em[k] == em_sum(l, k)
}

fn candidate_prefix(c: &Vec<CandidateSeason>) -> (r: Vec<u128>)
    ensures
        r@.len() == c@.len() + 1,
        forall|k: int| 0 <= k <= c@.len() ==> r@[k] == dan_sum(c@, k),
{
    let mut r: Vec<u128> = Vec::new();
    r.push(0);
    let mut s: u128 = 0;
    let mut i: usize = 0;
    while i < c.len()
        invariant
            i <= c@.len(),
            r@.len() == i + 1,
            s == dan_sum(c@, i as int),
            forall|k: int| 0 <= k <= i ==> r@[k] == dan_sum(c@, k),
        decreases c@.len() - i,
    {
        proof {
            lemma_dan_sum_bound(c@, i + 1);
            let j = i as int + 1;
            assert(j * (u64::MAX as int) <= u128::MAX) by (nonlinear_arith)
                requires
                    0 <= j <= usize::MAX + 1,
            ;
        }
        s = s + c[i].episode_count as u128;
        i = i + 1;
        r.push(s);
    }
    r
}

fn local_prefix(l: &Vec<LocalSeason>) -> (r: Vec<u128>)
    ensures
        r@.len() == l@.len() + 1,
        forall|k: int| 0 <= k <= l@.len() ==> r@[k] == em_sum(l@, k),
{
    let mut r: Vec<u128> = Vec::new();
    r.push(0);
    let mut s: u128 = 0;
    let mut i: usize = 0;
    while i < l.len()
        invariant
            i <= l@.len(),
            r@.len() == i + 1,
            s == em_sum(l@, i as int),
            forall|k: int| 0 <= k <= i ==> r@[k] == em_sum(l@, k),
        decreases l@.len() - i,
    {
        proof {
            lemma_em_sum_bound(l@, i + 1);
            let j = i as int + 1;
            assert(j * (u64::MAX as int) <= u128::MAX) by (nonlinear_arith)
                requires
                    0 <= j <= usize::MAX + 1,
            ;
        }
        s = s + l[i].episode_count as u128;
        i = i + 1;
        r.push(s);
    }
    r
}

fn bnd(
    c: &Vec<CandidateSeason>,
    l: &Vec<LocalSeason>,
    dan: &Vec<u128>,
    em: &Vec<u128>,
    k: i128,
    j: i128,
) -> (r: bool)
    requires
        sums_ok(c@, l@, dan@, em@),
    ensures
        r == boundary(c@, l@, k as int, j as int),
{
    if k < 0 || j < 0 || k > c.len() as i128 || j > l.len() as i128 {
        false
    } else {
        dan[k as usize] == em[j as usize]
    }
}

fn first_x_exec(
    c: &Vec<CandidateSeason>,
    l: &Vec<LocalSeason>,
    dan: &Vec<u128>,
    em: &Vec<u128>,
    sn: i128,
    i: i128,
) -> (r: Option<i128>)
    requires
        sums_ok(c@, l@, dan@, em@),
        0 <= sn <= u64::MAX,
        0 <= i <= usize::MAX,
    ensures
        r is Some <==> first_x(c@, l@, sn as int, i as int, 0) is Some,
        r is Some ==> r->0 as int == first_x(c@, l@, sn as int, i as int, 0)->0,
        r is Some ==> 0 <= r->0 <= i,
        r is Some ==> boundary(c@, l@, sn - 1 + r->0, sn - 1),
{
    let mut x: i128 = 0;
    while x <= i
        invariant
            sums_ok(c@, l@, dan@, em@),
            0 <= sn <= u64::MAX,
            0 <= i <= usize::MAX,
            0 <= x <= i + 1,
            first_x(c@, l@, sn as int, i as int, 0) == first_x(c@, l@, sn as int, i as int, x as int),
        decreases i + 1 - x,
    {
        if bnd(c, l, dan, em, sn - 1 + x, sn - 1) {
            return Some(x);
        }
        x = x + 1;
    }
    None
}

fn first_merge_exec(
    c: &Vec<CandidateSeason>,
    l: &Vec<LocalSeason>,
    dan: &Vec<u128>,
    em: &Vec<u128>,
    sn: i128,
    from: i128,
) -> (r: Option<(i128, i128)>)
    requires
        sums_ok(c@, l@, dan@, em@),
        c@.len() > l@.len(),
        0 <= sn <= u64::MAX,
        0 <= from <= c@.len() - l@.len() + 1,
    ensures
        r is Some <==> first_merge(c@, l@, sn as int, from as int) is Some,
        r matches Some((i, x)) ==> {
            &&& i as int == first_merge(c@, l@, sn as int, from as int)->0
            &&& x as int == first_x(c@, l@, sn as int, i as int, 0)->0
            &&& 0 <= x <= i
            &&& from <= i
            &&& merge_valid(c@, l@, sn as int, i as int)
            &&& boundary(c@, l@, sn - 1 + x, sn - 1)
        },
{
    let top: i128 = (c.len() - l.len()) as i128;
    let mut i: i128 = from;
    while i <= top
        invariant
            sums_ok(c@, l@, dan@, em@),
            c@.len() > l@.len(),
            top == c@.len() - l@.len(),
            0 <= sn <= u64::MAX,
            0 <= from <= i <= top + 1,
            top <= usize::MAX,
            first_merge(c@, l@, sn as int, from as int) == first_merge(c@, l@, sn as int, i as int),
        decreases top + 1 - i,
    {
        if bnd(c, l, dan, em, sn + i, sn) {
            match first_x_exec(c, l, dan, em, sn, i) {
                Some(x) => {
                    return Some((i, x));
                },
                None => {},
            }
        }
        i = i + 1;
    }
    None
}

/// The result of `align` for an alignment given by the spec.
pub open spec fn aligned_as(r: Result<Aligned, ResolveError>, s: Result<(u64, int, bool), ResolveError>) -> bool {
    match s {
        Ok((a, e, u)) => r matches Ok(al) && al.anime_id == a && al.episode_number as int == e
            && al.uniform == u,
        Err(err) => r == Err::<Aligned, ResolveError>(err),
    }
}

fn pick(c: &Vec<CandidateSeason>, idx: usize, ep: u128, uniform: bool) -> (r: Result<Aligned, ResolveError>)
    requires
        idx < c@.len(),
    ensures
        aligned_as(r, Ok(at(c@, idx as int, ep as int, uniform))),
{
    Ok(Aligned { anime_id: c[idx].anime_id, episode_number: ep, uniform })
}

fn merge_exec(
    c: &Vec<CandidateSeason>,
    l: &Vec<LocalSeason>,
    dan: &Vec<u128>,
    em: &Vec<u128>,
    sn: u64,
    ep: u64,
) -> (r: Result<Aligned, ResolveError>)
    requires
        sums_ok(c@, l@, dan@, em@),
        c@.len() > l@.len(),
        sn >= 1,
    ensures
        aligned_as(r, merge_spec(c@, l@, sn as int, ep as int)),
{
    let n: usize = c.len();
    let s: i128 = sn as i128;
    match first_merge_exec(c, l, dan, em, s, 0) {
        None => Err(ResolveError::InsufficientInfo),
        Some((i, x)) => {
            if first_merge_exec(c, l, dan, em, s, i + 1).is_some() {
                return Err(ResolveError::TooManyCandidates);
            }
            let e: u128 = ep as u128;
            let a: usize = (s - 1 + x) as usize;
            if i == x {
                pick(c, a, e, true)
            } else if i == x + 1 {
                let first: u128 = c[a].episode_count as u128;
                if e <= first {
                    pick(c, a, e, false)
                } else {
                    pick(c, a + 1, e - first, false)
                }
            } else if i == x + 2 {
                let first: u128 = c[a].episode_count as u128;
                let second: u128 = c[a + 1].episode_count as u128;
                if e <= first {
                    pick(c, a, e, false)
                } else if e <= first + second {
                    pick(c, a + 1, e - first, false)
                } else {
                    pick(c, a + 2, e - first - second, false)
                }
            } else {
                Err(ResolveError::TooManyCandidates)
            }
        },
    }
}

fn split_exec(
    c: &Vec<CandidateSeason>,
    l: &Vec<LocalSeason>,
    dan: &Vec<u128>,
    em: &Vec<u128>,
    sn: u64,
    ep: u64,
) -> (r: Result<Aligned, ResolveError>)
    requires
        sums_ok(c@, l@, dan@, em@),
    ensures
        aligned_as(
            r,
            match split_first(c@, l@, sn as int, ep as int, 1) {
                Some(t) => Ok(t),
                None => Err(ResolveError::InsufficientInfo),
            },
        ),
{
    let m: usize = l.len();
    let s: i128 = sn as i128;
    let mut j: usize = 0;
    while j < c.len()
        invariant
            sums_ok(c@, l@, dan@, em@),
            s == sn,
            m == l@.len(),
            0 <= j <= c@.len(),
            split_first(c@, l@, sn as int, ep as int, 1) == split_first(
                c@,
                l@,
                sn as int,
                ep as int,
                j + 1,
            ),
        decreases c@.len() - j,
    {
        let k: i128 = j as i128 + 1;
        let at_i = bnd(c, l, dan, em, k, s);
        if at_i && bnd(c, l, dan, em, k - 1, s - 1) {
            return pick(c, j, ep as u128, true);
        }
        if at_i && bnd(c, l, dan, em, k - 1, s - 2) {
            let before: u128 = l[(s - 2) as usize].episode_count as u128;
            return pick(c, j, ep as u128 + before, true);
        }
        if bnd(c, l, dan, em, k - 1, s - 1) && bnd(c, l, dan, em, k, s + 1) {
            return pick(c, j, ep as u128, true);
        }
        j = j + 1;
    }
    Err(ResolveError::InsufficientInfo)
}

fn partial_exec(c: &Vec<CandidateSeason>, l: &Vec<LocalSeason>, sn: u64, ep: u64) -> (r: Result<
    Aligned,
    ResolveError,
>)
    requires
        l@.len() > 0,
        sn >= 1,
    ensures
        aligned_as(r, partial_spec(c@, l@, sn as int, ep as int)),
{
    let last = l[l.len() - 1];
    if sn != last.season_number || (c.len() as u128) < last.season_number as u128 || sn as u128
        >= c.len() as u128 {
        return Err(ResolveError::InsufficientInfo);
    }
    let idx: usize = sn as usize;
    let here: u128 = c[idx].episode_count as u128;
    let before: u128 = c[idx - 1].episode_count as u128;
    let e: u128 = ep as u128;
    if here == last.episode_count as u128 {
        pick(c, idx, e, true)
    } else if here + before == last.episode_count as u128 {
        if e <= before {
            pick(c, idx - 1, e, false)
        } else {
            pick(c, idx, e - before, false)
        }
    } else {
        Err(ResolveError::InsufficientInfo)
    }
}

fn tv_exec(c: &Vec<CandidateSeason>, l: &Vec<LocalSeason>, sn: u64, ep: u64) -> (r: Result<
    Aligned,
    ResolveError,
>)
    ensures
        aligned_as(r, tv_spec(c@, l@, sn as int, ep as int)),
{
    if l.len() == 0 || sn < 1 {
        return Err(ResolveError::InsufficientInfo);
    }
    let n: u128 = c.len() as u128;
    let m: u128 = l.len() as u128;
    let s: u128 = sn as u128;
    if n == l[l.len() - 1].season_number as u128 {
        if s <= n {
            return pick(c, (sn - 1) as usize, ep as u128, true);
        }
        return Err(ResolveError::InsufficientInfo);
    }
    let dan = candidate_prefix(c);
    let em = local_prefix(l);
    if s <= n && bnd(c, l, &dan, &em, sn as i128, sn as i128) {
        return pick(c, (sn - 1) as usize, ep as u128, true);
    }
    if l[0].season_number != 1 {
        return partial_exec(c, l, sn, ep);
    }
    if dan[c.len()] != em[l.len()] {
        return Err(ResolveError::InsufficientInfo);
    }
    if n > m {
        merge_exec(c, l, &dan, &em, sn, ep)
    } else if n < m {
        split_exec(c, l, &dan, &em, sn, ep)
    } else {
        Err(ResolveError::InsufficientInfo)
    }
}

/// Aligns episode `episode_index` of local season `season_index` with the
/// remote candidate seasons.
pub fn align(
    kind: EpisodeKind,
    season_index: u64,
    episode_index: u64,
    candidates: &Vec<CandidateSeason>,
    local: &Vec<LocalSeason>,
) -> (r: Result<Aligned, ResolveError>)
    ensures
        aligned_as(
            r,
            align_spec(kind, candidates@, local@, season_index as int, episode_index as int),
        ),
{
    if candidates.len() == 0 {
        return Err(ResolveError::NoMatch);
    }
    match kind {
        EpisodeKind::Movie => pick(candidates, 0, 1, false),
        EpisodeKind::Ova => {
            if episode_index < 1 || episode_index as u128 > candidates.len() as u128 {
                Err(ResolveError::InsufficientInfo)
            } else {
                pick(candidates, (episode_index - 1) as usize, episode_index as u128, false)
            }
        },
        EpisodeKind::Tv => tv_exec(candidates, local, season_index, episode_index),
    }
}

proof fn lemma_split_uniform(c: Seq<CandidateSeason>, l: Seq<LocalSeason>, sn: int, ep: int, from: int)
    ensures
        split_first(c, l, sn, ep, from) matches Some((a, e, u)) ==> u && ep <= e,
    decreases c.len() + 1 - from,
{
    if 1 <= from <= c.len() && split_at(c, l, sn, ep, from) is None {
        lemma_split_uniform(c, l, sn, ep, from + 1);
    }
}

proof fn lemma_uniform_keeps_order(
    kind: EpisodeKind,
    c: Seq<CandidateSeason>,
    l: Seq<LocalSeason>,
    sn: int,
    ep: int,
)
    ensures
        align_spec(kind, c, l, sn, ep) matches Ok((a, e, u)) ==> (u ==> ep <= e),
{
    lemma_split_uniform(c, l, sn, ep, 1);
}

/// Resolves a local item from the remote candidate seasons and the local
/// season summary: the identifier, and the season offset to remember.
pub fn resolve_by_info(
    kind: EpisodeKind,
    season_index: u64,
    episode_index: u64,
    candidates: &Vec<CandidateSeason>,
    local: &Vec<LocalSeason>,
) -> (r: Result<Resolved, ResolveError>)
    ensures
        r == resolution_spec(kind, candidates@, local@, season_index as int, episode_index as int),
{
    let al = match align(kind, season_index, episode_index, candidates, local) {
        Ok(al) => al,
        Err(e) => {
            return Err(e);
        },
    };
    if al.episode_number >= 10000 {
        return Err(ResolveError::InsufficientInfo);
    }
    let id = match episode_id(al.anime_id, al.episode_number as i64) {
        Some(id) => id,
        None => {
            return Err(ResolveError::InsufficientInfo);
        },
    };
    let season = if al.uniform {
        proof {
            lemma_uniform_keeps_order(
                kind,
                candidates@,
                local@,
                season_index as int,
                episode_index as int,
            );
        }
        let offset: i64 = (al.episode_number - episode_index as u128) as i64;
        Some(SeasonOffset { anime_id: al.anime_id, offset })
    } else {
        None
    };
    Ok(Resolved { episode_id: id, season })
}

/// Every identifier produced by resolution is `anime_id * 10000 +
/// episode_number` with an episode number below 10000, and a remembered
/// season offset leads from the local episode index to that episode number.
pub proof fn lemma_resolution_decomposes(
    kind: EpisodeKind,
    c: Seq<CandidateSeason>,
    l: Seq<LocalSeason>,
    sn: int,
    ep: int,
)
    requires
        0 <= ep,
    ensures
        resolution_spec(kind, c, l, sn, ep) matches Ok(res) ==> exists|a: u64, e: nat|
            #![trigger compose(a as nat, e)]
            decomposes_to(res.episode_id as int, a as nat, e) && (res.season matches Some(so) ==> (
            so.anime_id == a && ep + so.offset == e)),
{
    lemma_uniform_keeps_order(kind, c, l, sn, ep);
    if let Ok((a, e, u)) = align_spec(kind, c, l, sn, ep) {
        if 0 <= e < 10000 && compose(a as nat, e as nat) <= usize::MAX {
            assert(decomposes_to(compose(a as nat, e as nat) as int, a as nat, e as nat));
        }
    }
}

proof fn lemma_first_merge_reaches(c: Seq<CandidateSeason>, l: Seq<LocalSeason>, sn: int, from: int, k: int)
    requires
        0 <= from <= k,
        merge_valid(c, l, sn, k),
    ensures
        first_merge(c, l, sn, from) matches Some(j) && from <= j <= k,
    decreases k - from,
{
    if !merge_valid(c, l, sn, from) {
        lemma_first_merge_reaches(c, l, sn, from + 1, k);
    }
}

/// When the remote side has more seasons and two different merge offsets
/// both satisfy the prefix check, resolution reports too many candidates
/// rather than choosing one of them.
pub proof fn lemma_ambiguous_merge_rejected(
    c: Seq<CandidateSeason>,
    l: Seq<LocalSeason>,
    sn: int,
    ep: int,
    i1: int,
    i2: int,
)
    requires
        l.len() > 0,
        sn >= 1,
        c.len() != l.last().season_number,
        !(sn <= c.len() && boundary(c, l, sn, sn)),
        l[0].season_number == 1,
        dan_sum(c, c.len() as int) == em_sum(l, l.len() as int),
        c.len() > l.len(),
        merge_valid(c, l, sn, i1),
        merge_valid(c, l, sn, i2),
        i1 < i2,
    ensures
        resolution_spec(EpisodeKind::Tv, c, l, sn, ep) == Err::<Resolved, ResolveError>(
            ResolveError::TooManyCandidates,
        ),
{
    lemma_first_merge_reaches(c, l, sn, 0, i1);
    let j = first_merge(c, l, sn, 0)->0;
    lemma_first_merge_reaches(c, l, sn, j + 1, i2);
}

} // verus!
