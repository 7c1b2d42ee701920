use danmaku::align::{align, resolve_by_info, CandidateSeason, EpisodeKind, LocalSeason, SeasonOffset};
use danmaku::ident::{episode_id, ResolveError};

fn cands(v: &[(u64, u64)]) -> Vec<CandidateSeason> {
    v.iter()
        .map(|&(anime_id, episode_count)| CandidateSeason { anime_id, episode_count })
        .collect()
}

fn locals(counts: &[u64]) -> Vec<LocalSeason> {
    counts
        .iter()
        .enumerate()
        .map(|(i, &episode_count)| LocalSeason { season_number: i as u64 + 1, episode_count })
        .collect()
}

#[test]
fn equal_season_counts_pick_the_same_season() {
    let c = cands(&[(100, 24), (200, 13)]);
    let l = locals(&[24, 13]);
    let r = resolve_by_info(EpisodeKind::Tv, 2, 5, &c, &l).unwrap();
    assert_eq!(r.episode_id, 2000005);
    assert_eq!(r.season, Some(SeasonOffset { anime_id: 200, offset: 0 }));
}

#[test]
fn merged_remote_season_adds_the_previous_local_season() {
    let c = cands(&[(300, 37)]);
    let l = locals(&[24, 13]);
    let a = align(EpisodeKind::Tv, 2, 5, &c, &l).unwrap();
    assert_eq!(a.anime_id, 300);
    assert_eq!(a.episode_number, 29);
    let r = resolve_by_info(EpisodeKind::Tv, 2, 5, &c, &l).unwrap();
    assert_eq!(r.episode_id, 3000029);
    assert_eq!(r.season, Some(SeasonOffset { anime_id: 300, offset: 24 }));
}

#[test]
fn split_local_season_moves_to_the_second_remote_season() {
    let c = cands(&[(400, 12), (401, 12)]);
    let l = locals(&[24]);
    let a = align(EpisodeKind::Tv, 1, 15, &c, &l).unwrap();
    assert_eq!(a.anime_id, 401);
    assert_eq!(a.episode_number, 3);
    let r = resolve_by_info(EpisodeKind::Tv, 1, 15, &c, &l).unwrap();
    assert_eq!(r.episode_id, 4010003);
    assert_eq!(r.season, None);
}

#[test]
fn split_local_season_early_episode_stays_in_first_remote_season() {
    let c = cands(&[(400, 12), (401, 12)]);
    let l = locals(&[24]);
    let r = resolve_by_info(EpisodeKind::Tv, 1, 7, &c, &l).unwrap();
    assert_eq!(r.episode_id, 4000007);
}

#[test]
fn two_merge_offsets_are_ambiguous() {
    let c = cands(&[(1, 5), (2, 5), (3, 0), (4, 14)]);
    let l = locals(&[10, 14]);
    assert_eq!(
        resolve_by_info(EpisodeKind::Tv, 1, 3, &c, &l),
        Err(ResolveError::TooManyCandidates)
    );
}

#[test]
fn season_spanning_more_than_three_remote_seasons_is_rejected() {
    let c = cands(&[(1, 2), (2, 2), (3, 2), (4, 2), (5, 10)]);
    let l = locals(&[8, 10]);
    assert_eq!(
        resolve_by_info(EpisodeKind::Tv, 1, 3, &c, &l),
        Err(ResolveError::TooManyCandidates)
    );
}

#[test]
fn totals_that_disagree_are_insufficient() {
    let c = cands(&[(1, 12), (2, 10)]);
    let l = locals(&[24]);
    assert_eq!(
        resolve_by_info(EpisodeKind::Tv, 1, 3, &c, &l),
        Err(ResolveError::InsufficientInfo)
    );
}

#[test]
fn empty_candidates_are_no_match() {
    let l = locals(&[24]);
    assert_eq!(
        resolve_by_info(EpisodeKind::Tv, 1, 3, &Vec::new(), &l),
        Err(ResolveError::NoMatch)
    );
}

#[test]
fn empty_local_summary_is_insufficient() {
    let c = cands(&[(1, 12)]);
    assert_eq!(
        resolve_by_info(EpisodeKind::Tv, 1, 3, &c, &Vec::new()),
        Err(ResolveError::InsufficientInfo)
    );
}

#[test]
fn movie_takes_first_candidate_episode_one() {
    let c = cands(&[(77, 1), (78, 1)]);
    let r = resolve_by_info(EpisodeKind::Movie, 1, 9, &c, &Vec::new()).unwrap();
    assert_eq!(r.episode_id, 770001);
    assert_eq!(r.season, None);
}

#[test]
fn ova_takes_candidate_by_episode_index() {
    let c = cands(&[(10, 1), (11, 1), (12, 1)]);
    let r = resolve_by_info(EpisodeKind::Ova, 1, 2, &c, &Vec::new()).unwrap();
    assert_eq!(r.episode_id, 110002);
    assert_eq!(
        resolve_by_info(EpisodeKind::Ova, 1, 4, &c, &Vec::new()),
        Err(ResolveError::InsufficientInfo)
    );
}

#[test]
fn library_missing_first_seasons_uses_next_remote_season() {
    let c = cands(&[(1, 12), (2, 12), (3, 10)]);
    let l = vec![LocalSeason { season_number: 2, episode_count: 12 }];
    assert_eq!(
        resolve_by_info(EpisodeKind::Tv, 2, 4, &c, &l),
        Err(ResolveError::InsufficientInfo)
    );
    let l = vec![LocalSeason { season_number: 2, episode_count: 10 }];
    let r = resolve_by_info(EpisodeKind::Tv, 2, 4, &c, &l).unwrap();
    assert_eq!(r.episode_id, 30004);
}

#[test]
fn episode_number_past_four_digits_is_refused() {
    let c = cands(&[(5, 20000)]);
    let l = locals(&[20000]);
    assert_eq!(
        resolve_by_info(EpisodeKind::Tv, 1, 12000, &c, &l),
        Err(ResolveError::InsufficientInfo)
    );
}

#[test]
fn episode_id_packs_four_digits() {
    assert_eq!(episode_id(12345, 1), Some(123450001));
    assert_eq!(episode_id(1, 9999), Some(19999));
    assert_eq!(episode_id(1, 10000), None);
    assert_eq!(episode_id(1, -1), None);
    let id = episode_id(987, 42).unwrap();
    assert_eq!(id / 10000, 987);
    assert_eq!(id % 10000, 42);
}
