use inori::filter::refilter;
use inori::matching::{best_match, best_result, match_candidate, Match};
use inori::model::FilterCache;
use nucleo_matcher::Matcher;

fn names(list: &[&str]) -> Vec<Vec<String>> {
    list.iter().map(|s| vec![s.to_string()]).collect()
}

fn found(score: u16, positions: &[u32]) -> Option<Match> {
    Some(Match { score, positions: positions.to_vec() })
}

fn pair(m: Option<Match>) -> Option<(u16, Vec<u32>)> {
    m.map(|m| (m.score, m.positions))
}

#[test]
fn beatles_scenario() {
    let mut matcher = Matcher::default();
    let entries = names(&["Abba", "Radiohead", "The Beatles"]);
    let cache = refilter(&mut matcher, &entries, true, "be");
    assert_eq!(cache.query, "be");
    assert_eq!(cache.order, vec![Some(2)]);
    assert_eq!(cache.indices, vec![Some(vec![4, 5])]);
}

#[test]
fn empty_query_is_identity() {
    let mut matcher = Matcher::default();
    let entries = names(&["Abba", "Radiohead", "The Beatles"]);
    let cache = refilter(&mut matcher, &entries, true, "");
    assert_eq!(cache.query, "");
    assert_eq!(cache.order, vec![Some(0), Some(1), Some(2)]);
    assert_eq!(cache.indices, vec![Some(vec![]), Some(vec![]), Some(vec![])]);
}

#[test]
fn inactive_filter_is_identity_whatever_the_query() {
    let mut matcher = Matcher::default();
    let entries = names(&["Abba", "Radiohead", "The Beatles"]);
    let cache = refilter(&mut matcher, &entries, false, "be");
    assert_eq!(cache.query, "be");
    assert_eq!(cache.order, vec![Some(0), Some(1), Some(2)]);
    assert_eq!(cache.indices, vec![Some(vec![]), Some(vec![]), Some(vec![])]);
}

#[test]
fn empty_collection_gives_empty_cache() {
    let mut matcher = Matcher::default();
    let entries: Vec<Vec<String>> = Vec::new();
    let idle = refilter(&mut matcher, &entries, true, "");
    assert!(idle.order.is_empty() && idle.indices.is_empty());
    let searched = refilter(&mut matcher, &entries, true, "abc");
    assert!(searched.order.is_empty() && searched.indices.is_empty());
}

#[test]
fn no_match_gives_empty_result() {
    let mut matcher = Matcher::default();
    let entries = names(&["Abba", "Radiohead", "The Beatles"]);
    let cache = refilter(&mut matcher, &entries, true, "zzz");
    assert_eq!(cache.query, "zzz");
    assert!(cache.order.is_empty());
    assert!(cache.indices.is_empty());
}

#[test]
fn entries_without_a_match_are_excluded() {
    let mut matcher = Matcher::default();
    let entries = names(&["Abba", "Radiohead", "The Beatles"]);
    for i in 0..entries.len() {
        assert_eq!(
            match_candidate(&mut matcher, "be", &entries[i][0]).is_none(),
            i != 2
        );
    }
    let cache = refilter(&mut matcher, &entries, true, "be");
    assert!(!cache.order.contains(&Some(0)));
    assert!(!cache.order.contains(&Some(1)));
    assert!(cache.order.contains(&Some(2)));
}

#[test]
fn best_score_first_and_ties_in_storage_order() {
    let mut matcher = Matcher::default();
    let entries = names(&["Radiohead", "The Beatles", "Abba"]);
    let cache = refilter(&mut matcher, &entries, true, "a");
    assert_eq!(cache.order, vec![Some(2), Some(0), Some(1)]);
    assert_eq!(cache.indices, vec![Some(vec![0]), Some(vec![1]), Some(vec![6])]);
}

#[test]
fn equal_scores_keep_storage_order() {
    let mut matcher = Matcher::default();
    let entries = names(&["Sun Ra", "Ravel", "Radiohead"]);
    let cache = refilter(&mut matcher, &entries, true, "ra");
    assert_eq!(cache.order, vec![Some(0), Some(1), Some(2)]);
    assert_eq!(cache.indices, vec![Some(vec![4, 5]), Some(vec![0, 1]), Some(vec![0, 1])]);
}

#[test]
fn refilter_twice_gives_the_same_cache() {
    let mut matcher = Matcher::default();
    let entries = names(&["Love Me Do", "Abba", "All You Need Is Love", "Lovely Rita"]);
    let first = refilter(&mut matcher, &entries, true, "love");
    let second = refilter(&mut matcher, &entries, true, "love");
    assert_eq!(first.query, second.query);
    assert_eq!(first.order, second.order);
    assert_eq!(first.indices, second.indices);
    assert_eq!(first.order, vec![Some(0), Some(2), Some(3)]);
}

#[test]
fn an_entry_matches_on_any_of_its_strings() {
    let mut matcher = Matcher::default();
    let entries = vec![
        vec!["Abba".to_string()],
        vec!["The Beatles".to_string(), "Beatles, The".to_string()],
        vec!["Radiohead".to_string(), "Beck".to_string()],
    ];
    let cache = refilter(&mut matcher, &entries, true, "be");
    assert_eq!(cache.order, vec![Some(1), Some(2)]);
    assert_eq!(cache.indices, vec![Some(vec![4, 5]), Some(vec![0, 1])]);
}

#[test]
fn match_candidate_reports_score_and_positions() {
    let mut matcher = Matcher::default();
    assert_eq!(pair(match_candidate(&mut matcher, "be", "The Beatles")), Some((62, vec![4, 5])));
    assert_eq!(pair(match_candidate(&mut matcher, "BE", "The Beatles")), Some((62, vec![4, 5])));
    assert_eq!(pair(match_candidate(&mut matcher, "a", "Abba")), Some((36, vec![0])));
    assert_eq!(pair(match_candidate(&mut matcher, "love", "All You Need Is Love")), Some((114, vec![16, 17, 18, 19])));
    assert_eq!(pair(match_candidate(&mut matcher, "be", "Abba")), None);
    assert_eq!(pair(match_candidate(&mut matcher, "x", "")), None);
}

#[test]
fn match_candidate_ignores_the_configuration_of_the_matcher() {
    let mut plain = Matcher::default();
    let mut paths = Matcher::new(nucleo_matcher::Config::DEFAULT.match_paths());
    paths.config.prefer_prefix = true;
    let a = pair(match_candidate(&mut plain, "ra", "Sun Ra"));
    let b = pair(match_candidate(&mut paths, "ra", "Sun Ra"));
    assert_eq!(a, b);
    assert_eq!(a, Some((62, vec![4, 5])));
}

#[test]
fn best_match_takes_the_first_of_equal_scores() {
    let mut matcher = Matcher::default();
    let sorted_first = vec!["Beatles, The".to_string(), "The Beatles".to_string()];
    assert_eq!(pair(best_match(&mut matcher, "be", &sorted_first)), Some((62, vec![0, 1])));
    let name_first = vec!["The Beatles".to_string(), "Beatles, The".to_string()];
    assert_eq!(pair(best_match(&mut matcher, "be", &name_first)), Some((62, vec![4, 5])));
    let none = vec!["Abba".to_string(), "Radiohead".to_string()];
    assert_eq!(pair(best_match(&mut matcher, "be", &none)), None);
    let empty: Vec<String> = Vec::new();
    assert_eq!(pair(best_match(&mut matcher, "be", &empty)), None);
}

#[test]
fn best_result_picks_highest_then_first() {
    assert_eq!(pair(best_result(vec![])), None);
    assert_eq!(pair(best_result(vec![None, None])), None);
    assert_eq!(
        pair(best_result(vec![found(5, &[1]), None, found(9, &[2]), found(9, &[3])])),
        Some((9, vec![2]))
    );
    assert_eq!(pair(best_result(vec![None, found(0, &[])])), Some((0, vec![])));
}

#[test]
fn from_matches_ranks_by_score_then_index() {
    let matches = vec![
        found(10, &[0]),
        None,
        found(30, &[1, 2]),
        found(10, &[3]),
        found(30, &[4]),
        None,
        found(20, &[]),
    ];
    let cache = FilterCache::from_matches("q".to_string(), matches);
    assert_eq!(cache.query, "q");
    assert_eq!(cache.order, vec![Some(2), Some(4), Some(6), Some(0), Some(3)]);
    assert_eq!(
        cache.indices,
        vec![Some(vec![1, 2]), Some(vec![4]), Some(vec![]), Some(vec![0]), Some(vec![3])]
    );
}

#[test]
fn identity_cache_lists_every_entry() {
    let cache = FilterCache::identity("abc".to_string(), 4);
    assert_eq!(cache.query, "abc");
    assert_eq!(cache.order, vec![Some(0), Some(1), Some(2), Some(3)]);
    assert_eq!(cache.indices, vec![Some(vec![]); 4]);
    let empty = FilterCache::new();
    assert_eq!(empty.query, "");
    assert!(empty.order.is_empty() && empty.indices.is_empty());
}

#[test]
fn queries_beyond_the_limit_of_the_matcher_never_match() {
    let mut matcher = Matcher::default();
    let at_limit = "a".repeat(inori::matching::MAX_QUERY);
    let beyond = "a".repeat(inori::matching::MAX_QUERY + 1);
    let long = "a".repeat(3000);
    assert_eq!(inori::matching::MAX_QUERY, 2048);
    assert_eq!(pair(match_candidate(&mut matcher, &at_limit, &at_limit)).map(|m| m.0), Some(36 + 26 * 2047));
    assert_eq!(pair(match_candidate(&mut matcher, &beyond, &beyond)), None);
    assert_eq!(pair(match_candidate(&mut matcher, &long, &long)), None);
    assert_eq!(pair(match_candidate(&mut matcher, "a", &long)).map(|m| m.0), Some(36));
    let entries = vec![vec![long.clone()], vec!["Abba".to_string()]];
    let cache = refilter(&mut matcher, &entries, true, &long);
    assert!(cache.order.is_empty());
}
