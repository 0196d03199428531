use trident::parser::HostEntry;
use trident::search::{SearchEngine, suggestion_for};
use std::time::Instant;

fn create_test_hosts(count: usize) -> Vec<HostEntry> {
    (0..count)
        .map(|i| {
            HostEntry::new(
                format!("server{i}.example.com"),
                format!("ssh server{i}.example.com"),
            )
        })
        .collect()
}

#[test]
fn test_empty_query_returns_all() {
    let hosts = vec![
        HostEntry::new("server1".to_string(), "ssh server1".to_string()),
        HostEntry::new("server2".to_string(), "ssh server2".to_string()),
        HostEntry::new("server3".to_string(), "ssh server3".to_string()),
    ];

    let engine = SearchEngine::new(hosts);
    let results = engine.search("", false, 10);

    assert_eq!(results.len(), 3);
}

#[test]
fn test_exact_match() {
    let hosts = vec![
        HostEntry::new("production".to_string(), "ssh production".to_string()),
        HostEntry::new("prod-backup".to_string(), "ssh prod-backup".to_string()),
        HostEntry::new("staging".to_string(), "ssh staging".to_string()),
    ];

    let engine = SearchEngine::new(hosts);
    let results = engine.search("production", false, 10);

    assert_eq!(results.len(), 1);
    assert_eq!(results[0].name, "production");
}

#[test]
fn test_prefix_match() {
    let hosts = vec![
        HostEntry::new("production".to_string(), "ssh production".to_string()),
        HostEntry::new("prod-backup".to_string(), "ssh prod-backup".to_string()),
        HostEntry::new("staging".to_string(), "ssh staging".to_string()),
    ];

    let engine = SearchEngine::new(hosts);
    let results = engine.search("prod", false, 10);

    assert_eq!(results.len(), 2);
    // Both are prefix matches, ordering may vary by length
    assert!(results.iter().any(|h| h.name == "production"));
    assert!(results.iter().any(|h| h.name == "prod-backup"));
}

#[test]
fn test_fuzzy_match() {
    let hosts = vec![
        HostEntry::new(
            "development-server".to_string(),
            "ssh development-server".to_string(),
        ),
        HostEntry::new("test-server".to_string(), "ssh test-server".to_string()),
        HostEntry::new("devops".to_string(), "ssh devops".to_string()),
    ];

    let engine = SearchEngine::new(hosts);
    let results = engine.search("dev", false, 10);

    assert_eq!(results.len(), 2);
    assert!(results.iter().any(|h| h.name == "development-server"));
    assert!(results.iter().any(|h| h.name == "devops"));
}

#[test]
fn test_case_sensitivity() {
    let hosts = vec![
        HostEntry::new("Server1".to_string(), "ssh Server1".to_string()),
        HostEntry::new("server2".to_string(), "ssh server2".to_string()),
    ];

    let engine = SearchEngine::new(hosts.clone());

    // Case insensitive
    let results = engine.search("server", false, 10);
    assert_eq!(results.len(), 2);

    // Case sensitive
    let results = engine.search("server", true, 10);
    assert_eq!(results.len(), 1);
    assert_eq!(results[0].name, "server2");
}

#[test]
fn test_max_results_limit() {
    let hosts = create_test_hosts(100);
    let engine = SearchEngine::new(hosts);

    let results = engine.search("server", false, 5);
    assert_eq!(results.len(), 5);
}

#[test]
fn test_performance_under_50ms() {
    let hosts = create_test_hosts(1000);
    let engine = SearchEngine::new(hosts);

    let start = Instant::now();
    let _results = engine.search("server42", false, 20);
    let duration = start.elapsed();

    assert!(
        duration.as_millis() < 50,
        "Search took {duration:?}, should be under 50ms"
    );
}

#[test]
fn test_fuzzy_scoring_order() {
    let hosts = vec![
        HostEntry::new("github.com".to_string(), "ssh github.com".to_string()),
        HostEntry::new(
            "gitlab.company.com".to_string(),
            "ssh gitlab.company.com".to_string(),
        ),
        HostEntry::new("git.internal".to_string(), "ssh git.internal".to_string()),
        HostEntry::new("bitbucket.org".to_string(), "ssh bitbucket.org".to_string()),
    ];

    let engine = SearchEngine::new(hosts);
    let results = engine.search("git", false, 10);

    // All three hosts with "git" should be found
    assert_eq!(results.len(), 3);

    // git.internal should score highest (prefix match)
    assert_eq!(results[0].name, "git.internal");

    // github and gitlab should also be in results (contains match)
    assert!(results.iter().any(|h| h.name == "github.com"));
    assert!(results.iter().any(|h| h.name == "gitlab.company.com"));
}

#[test]
fn test_empty_candidates_give_empty_result() {
    let engine = SearchEngine::new(Vec::new());
    let results = engine.search("anything", false, 10);
    assert!(results.is_empty());
}

#[test]
fn test_zero_max_results_gives_empty_result() {
    let hosts = create_test_hosts(5);
    let engine = SearchEngine::new(hosts);
    assert!(engine.search("server", false, 0).is_empty());
    assert!(engine.search("", false, 0).is_empty());
}

#[test]
fn test_search_is_deterministic() {
    let hosts = create_test_hosts(50);
    let engine = SearchEngine::new(hosts);
    let a: Vec<String> = engine
        .search("srv4", false, 10)
        .iter()
        .map(|h| h.name.clone())
        .collect();
    let b: Vec<String> = engine
        .search("srv4", false, 10)
        .iter()
        .map(|h| h.name.clone())
        .collect();
    assert_eq!(a, b);
}

#[test]
fn test_equal_scores_keep_input_order() {
    // Two candidates with the same name score identically, so the first
    // stays first.
    let hosts = vec![
        HostEntry::new("alpha".to_string(), "ssh alpha-one".to_string()),
        HostEntry::new("alpha".to_string(), "ssh alpha-two".to_string()),
    ];
    let engine = SearchEngine::new(hosts);
    let results = engine.search("alp", false, 10);
    assert_eq!(results.len(), 2);
    assert_eq!(results[0].connection_string, "ssh alpha-one");
    assert_eq!(results[1].connection_string, "ssh alpha-two");
}

#[test]
fn test_word_boundary_bonus_outranks_plain_prefix() {
    // "git.ab" scores 900 + (50 - 6) + 50 = 994 (boundary at the dot);
    // "gitab" scores 900 + (50 - 5) = 945: the dotted name wins although it
    // is longer.
    let hosts = vec![
        HostEntry::new("gitab".to_string(), "ssh gitab".to_string()),
        HostEntry::new("git.ab".to_string(), "ssh git.ab".to_string()),
    ];
    let engine = SearchEngine::new(hosts);
    let results = engine.search("git", false, 10);
    assert_eq!(results.len(), 2);
    assert_eq!(results[0].name, "git.ab");
    assert_eq!(results[1].name, "gitab");
}

#[test]
fn test_earlier_substring_outranks_later() {
    // Substring scores are 700 minus the match position.
    let hosts = vec![
        HostEntry::new("xxgit".to_string(), "ssh xxgit".to_string()),
        HostEntry::new("xgit".to_string(), "ssh xgit".to_string()),
    ];
    let engine = SearchEngine::new(hosts);
    let results = engine.search("git", false, 10);
    assert_eq!(results.len(), 2);
    assert_eq!(results[0].name, "xgit");
    assert_eq!(results[1].name, "xxgit");
}

#[test]
fn test_tiers_rank_exact_above_prefix_above_substring_above_fuzzy() {
    let hosts = vec![
        HostEntry::new("agitb".to_string(), "ssh agitb".to_string()),
        HostEntry::new("g-i-t".to_string(), "ssh g-i-t".to_string()),
        HostEntry::new("git".to_string(), "ssh git".to_string()),
        HostEntry::new("gitty".to_string(), "ssh gitty".to_string()),
    ];
    let engine = SearchEngine::new(hosts);
    let results = engine.search("git", false, 10);
    assert_eq!(results.len(), 4);
    assert_eq!(results[0].name, "git");
    assert_eq!(results[1].name, "gitty");
    assert_eq!(results[2].name, "agitb");
    assert_eq!(results[3].name, "g-i-t");
}

#[test]
fn test_suggestion_takes_first_extending_result() {
    let results = vec![
        HostEntry::new("git".to_string(), "ssh git".to_string()),
        HostEntry::new("github.com".to_string(), "ssh github.com".to_string()),
    ];
    // "git" does not extend the query, "github.com" does.
    let s = suggestion_for(&results, "git", false);
    assert_eq!(s, Some("github.com".to_string()));
    // The empty query never suggests.
    assert_eq!(suggestion_for(&results, "", false), None);
    // Case-insensitively, a differently-cased name still completes.
    let caps = vec![HostEntry::new("GitHub.com".to_string(), "ssh GitHub.com".to_string())];
    assert_eq!(suggestion_for(&caps, "git", false), Some("GitHub.com".to_string()));
    assert_eq!(suggestion_for(&caps, "git", true), None);
}
