use danmaku::align::{CandidateSeason, EpisodeKind, LocalSeason, SeasonOffset};
use danmaku::ident::ResolveError;
use danmaku::linkage::Linkage;
use danmaku::resolve::{
    after_hash, after_info, after_lookup, count_numbered_episodes, match_outcome, Step, resolve_cached, resolve_with_hash, resolve_with_info, LocalItemRef, Lookup,
};

fn item(season_index: u64, episode_index: u64, item_id: &str) -> LocalItemRef {
    LocalItemRef {
        host: "media.local".to_string(),
        series_name: "Some Show".to_string(),
        kind: EpisodeKind::Tv,
        season_id: "season-2".to_string(),
        season_index,
        episode_index,
        item_id: item_id.to_string(),
    }
}

#[test]
fn linkage_tables_replace_values() {
    let mut l = Linkage::new();
    let h = "h".to_string();
    let s = "s".to_string();
    assert!(l.items.is_empty());
    assert_eq!(l.get_seasons(&h, &s), None);
    l.insert_seasons(&h, &s, SeasonOffset { anime_id: 1, offset: 2 });
    l.insert_seasons(&h, &s, SeasonOffset { anime_id: 3, offset: -4 });
    assert_eq!(l.get_seasons(&h, &s), Some(SeasonOffset { anime_id: 3, offset: -4 }));
    assert_eq!(l.seasons.entries.len(), 1);
    l.insert_items(&h, &"i".to_string(), 7);
    assert_eq!(l.get_items(&h, &"i".to_string()), Some(7));
    assert_eq!(l.get_items(&"other".to_string(), &"i".to_string()), None);
    assert!(!l.items.is_empty());
}

#[test]
fn second_resolution_is_served_from_cache() {
    let mut l = Linkage::new();
    let it = item(2, 5, "item-a");
    assert_eq!(resolve_cached(&mut l, &it), Lookup::Miss);
    let c = vec![
        CandidateSeason { anime_id: 100, episode_count: 24 },
        CandidateSeason { anime_id: 200, episode_count: 13 },
    ];
    let s = vec![
        LocalSeason { season_number: 1, episode_count: 24 },
        LocalSeason { season_number: 2, episode_count: 13 },
    ];
    let first = resolve_with_info(&mut l, &it, &c, &s).unwrap();
    assert_eq!(first, 2000005);
    assert_eq!(resolve_cached(&mut l, &it), Lookup::Cached(first));
    assert_eq!(resolve_cached(&mut l, &it), Lookup::Cached(first));
}

#[test]
fn season_offset_resolves_other_episodes() {
    let mut l = Linkage::new();
    let c = vec![CandidateSeason { anime_id: 300, episode_count: 37 }];
    let s = vec![
        LocalSeason { season_number: 1, episode_count: 24 },
        LocalSeason { season_number: 2, episode_count: 13 },
    ];
    assert_eq!(resolve_with_info(&mut l, &item(2, 5, "a"), &c, &s), Ok(3000029));
    let other = item(2, 7, "b");
    assert_eq!(resolve_cached(&mut l, &other), Lookup::FromSeason(3000031));
    assert_eq!(resolve_cached(&mut l, &other), Lookup::Cached(3000031));
}

#[test]
fn failed_resolution_leaves_cache_alone() {
    let mut l = Linkage::new();
    let it = item(1, 3, "x");
    assert_eq!(
        resolve_with_info(&mut l, &it, &Vec::new(), &Vec::new()),
        Err(ResolveError::NoMatch)
    );
    assert!(l.items.is_empty());
    assert!(l.seasons.is_empty());
}

#[test]
fn hash_match_records_offset() {
    let mut l = Linkage::new();
    let it = item(2, 5, "h1");
    assert_eq!(resolve_with_hash(&mut l, &it, Ok(1230008)), Ok(1230008));
    let host = "media.local".to_string();
    assert_eq!(
        l.get_seasons(&host, &"season-2".to_string()),
        Some(SeasonOffset { anime_id: 123, offset: 3 })
    );
    assert_eq!(resolve_cached(&mut l, &item(2, 6, "h2")), Lookup::FromSeason(1230009));
    assert_eq!(resolve_with_hash(&mut l, &it, Ok(0)), Err(ResolveError::NoMatch));
    assert_eq!(
        resolve_with_hash(&mut l, &it, Err(ResolveError::AmbiguousMatch)),
        Err(ResolveError::AmbiguousMatch)
    );
}

#[test]
fn season_offset_outside_range_is_unaligned() {
    let mut l = Linkage::new();
    l.insert_seasons(
        &"media.local".to_string(),
        &"season-2".to_string(),
        SeasonOffset { anime_id: 5, offset: -10 },
    );
    assert_eq!(resolve_cached(&mut l, &item(2, 4, "u")), Lookup::Unaligned);
    assert_eq!(resolve_cached(&mut l, &item(2, 14, "v")), Lookup::FromSeason(50004));
}

#[test]
fn hash_answers_map_to_outcomes() {
    assert_eq!(match_outcome(false, true, &vec![1]), Err(ResolveError::ServiceError));
    assert_eq!(match_outcome(true, false, &vec![]), Err(ResolveError::NoMatch));
    assert_eq!(match_outcome(true, true, &vec![42]), Ok(42));
    assert_eq!(match_outcome(true, true, &vec![1, 2]), Err(ResolveError::AmbiguousMatch));
}

#[test]
fn numbered_episodes_are_counted() {
    let v: Vec<String> = ["1", "2", "S1", "", "12", "C3", "+5", "+"].iter().map(|s| s.to_string()).collect();
    assert_eq!(count_numbered_episodes(&v), 4);
}

#[test]
fn resolution_steps_follow_outcomes() {
    assert_eq!(after_lookup(Lookup::Cached(9)), Step::Done { episode_id: 9, save: false });
    assert_eq!(after_lookup(Lookup::FromSeason(9)), Step::Done { episode_id: 9, save: true });
    assert_eq!(after_lookup(Lookup::Miss), Step::Search);
    assert_eq!(after_lookup(Lookup::Unaligned), Step::HashMatch);
    assert_eq!(after_info(Ok(5)), Step::Done { episode_id: 5, save: true });
    assert_eq!(after_info(Err(ResolveError::TooManyCandidates)), Step::HashMatch);
    assert_eq!(after_hash(Ok(6)), Step::Done { episode_id: 6, save: true });
    assert_eq!(
        after_hash(Err(ResolveError::NoMatch)),
        Step::Fail(ResolveError::NoMatch)
    );
}
