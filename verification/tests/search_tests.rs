use remote_media_pi::downloader::{accept_response, SourceAdapter};
use remote_media_pi::search::{merge_rank, SearchResult, Searcher};

struct MockTorrentSource {
    search_results: Vec<SearchResult>,
    base_url: String,
    fail_fetch: bool,
}

impl Default for MockTorrentSource {
    fn default() -> Self {
        Self {
            search_results: Vec::new(),
            base_url: "https://mock-source.com".to_string(),
            fail_fetch: false,
        }
    }
}

impl MockTorrentSource {
    fn with_results(mut self, results: Vec<SearchResult>) -> Self {
        self.search_results = results;
        self
    }

    fn failing(mut self) -> Self {
        self.fail_fetch = true;
        self
    }
}

impl SourceAdapter for MockTorrentSource {
    fn build_url(&self, terms: &str) -> String {
        format!("{}/search/{}", self.base_url, terms)
    }

    fn get_document(&self, _url: String) -> Option<String> {
        if self.fail_fetch {
            None
        } else {
            Some("<html><body>Mock HTML</body></html>".to_string())
        }
    }

    fn select_results(&self, _document: String) -> Vec<SearchResult> {
        self.search_results.clone()
    }
}

fn result(name: &str, seeders: u32, leechers: u32, size: &str, url: &str) -> SearchResult {
    SearchResult {
        name: name.to_string(),
        seeders,
        leechers,
        size: size.to_string(),
        url: url.to_string(),
    }
}

fn sample_results() -> Vec<SearchResult> {
    vec![
        result("High Seeds Movie", 1000, 100, "1.5 GB", "magnet:high"),
        result("Medium Seeds Movie", 500, 50, "800 MB", "magnet:medium"),
        result("Low Seeds Movie", 100, 10, "2.0 GB", "magnet:low"),
    ]
}

fn fixture_results() -> Vec<SearchResult> {
    vec![
        result(
            "Test Movie 2023",
            1500,
            200,
            "1.5 GB",
            "magnet:?xt=urn:btih:123456789abcdef&dn=Test+Movie+2023",
        ),
        result(
            "Another Show S01E01",
            800,
            50,
            "750 MB",
            "magnet:?xt=urn:btih:987654321fedcba&dn=Another+Show+S01E01",
        ),
        result(
            "Old Movie 1999",
            250,
            10,
            "2.0 GB",
            "magnet:?xt=urn:btih:abcdef123456789&dn=Old+Movie+1999",
        ),
    ]
}

#[test]
fn test_searcher_new() {
    let searcher: Searcher<MockTorrentSource> = Searcher::new();
    assert_eq!(searcher.adapters.len(), 0);
}

#[test]
fn test_searcher_using() {
    let mock_adapter = MockTorrentSource::default().with_results(vec![]);
    let searcher = Searcher::new().using(mock_adapter);
    assert_eq!(searcher.adapters.len(), 1);
}

#[test]
fn test_search_results_sorted_by_seeders() {
    let results = sample_results();
    let mock_adapter = MockTorrentSource::default().with_results(results);
    let searcher = Searcher::new().using(mock_adapter);

    let search_results = searcher.search("test");

    assert_eq!(search_results.len(), 3);
    assert_eq!(search_results[0].name, "High Seeds Movie");
    assert_eq!(search_results[0].seeders, 1000);
    assert_eq!(search_results[1].name, "Medium Seeds Movie");
    assert_eq!(search_results[1].seeders, 500);
    assert_eq!(search_results[2].name, "Low Seeds Movie");
    assert_eq!(search_results[2].seeders, 100);
}

#[test]
fn test_search_deduplication() {
    let mut results = sample_results();
    results.push(results[0].clone());

    let mock_adapter = MockTorrentSource::default().with_results(results);
    let searcher = Searcher::new().using(mock_adapter);

    let search_results = searcher.search("test");

    assert_eq!(search_results.len(), 3);
}

#[test]
fn test_search_empty_results() {
    let mock_adapter = MockTorrentSource::default().with_results(vec![]);
    let searcher = Searcher::new().using(mock_adapter);

    let search_results = searcher.search("nonexistent");

    assert_eq!(search_results.len(), 0);
}

#[test]
fn test_search_result_equality() {
    let result1 = result("Test Movie", 100, 10, "1.0 GB", "magnet:test");
    let result2 = result("Test Movie", 200, 20, "2.0 GB", "magnet:test");
    let result3 = result("Test Movie", 100, 10, "1.0 GB", "magnet:different");

    // Equal: same name and URL, counters do not matter.
    assert_eq!(result1, result2);

    // Not equal: different URL.
    assert_ne!(result1, result3);
}

#[test]
fn test_search_result_ordering() {
    let low = result("Low", 100, 10, "1.0 GB", "magnet:low");
    let high = result("High", 1000, 100, "1.0 GB", "magnet:high");

    assert!(high > low);
    assert!(low < high);
}

#[test]
fn test_searcher_with_mock_adapter() {
    let results = fixture_results();
    let mock_source = MockTorrentSource::default().with_results(results.clone());

    let searcher = Searcher::new().using(mock_source);
    let search_results = searcher.search("test query");

    assert_eq!(search_results.len(), 3);
    assert_eq!(search_results[0].name, "Test Movie 2023");
    assert_eq!(search_results[0].seeders, 1500);
    assert_eq!(search_results[1].name, "Another Show S01E01");
    assert_eq!(search_results[1].seeders, 800);
    assert_eq!(search_results[2].name, "Old Movie 1999");
    assert_eq!(search_results[2].seeders, 250);
}

#[test]
fn test_searcher_deduplication() {
    let mut results = fixture_results();
    results.push(results[0].clone());

    let mock_source = MockTorrentSource::default().with_results(results);
    let searcher = Searcher::new().using(mock_source);
    let search_results = searcher.search("test query");

    assert_eq!(search_results.len(), 3);
}

#[test]
fn test_searcher_empty_results() {
    let mock_source = MockTorrentSource::default().with_results(vec![]);
    let searcher = Searcher::new().using(mock_source);
    let search_results = searcher.search("nonexistent");

    assert_eq!(search_results.len(), 0);
}

#[test]
fn test_search_no_adapters() {
    let searcher: Searcher<MockTorrentSource> = Searcher::new();
    let search_results = searcher.search("anything");
    assert_eq!(search_results.len(), 0);
}

// Repeated searches over fixed adapters give identical ordered output.
#[test]
fn test_search_idempotent() {
    let searcher = Searcher::new()
        .using(MockTorrentSource::default().with_results(sample_results()))
        .using(MockTorrentSource::default().with_results(fixture_results()));

    let first = searcher.search("test");
    let second = searcher.search("test");

    assert_eq!(first.len(), second.len());
    for (a, b) in first.iter().zip(second.iter()) {
        assert_eq!(a.name, b.name);
        assert_eq!(a.seeders, b.seeders);
        assert_eq!(a.leechers, b.leechers);
        assert_eq!(a.size, b.size);
        assert_eq!(a.url, b.url);
    }
}

// One failing adapter out of three leaves the other two's ranked output whole.
#[test]
fn test_adapter_isolation() {
    let searcher = Searcher::new()
        .using(MockTorrentSource::default().with_results(vec![result(
            "Solo High",
            900,
            1,
            "1 GB",
            "magnet:solo-high",
        )]))
        .using(MockTorrentSource::default().with_results(sample_results()).failing())
        .using(MockTorrentSource::default().with_results(vec![result(
            "Solo Low",
            7,
            1,
            "1 GB",
            "magnet:solo-low",
        )]));

    let search_results = searcher.search("test");

    assert_eq!(search_results.len(), 2);
    assert_eq!(search_results[0].name, "Solo High");
    assert_eq!(search_results[0].seeders, 900);
    assert_eq!(search_results[1].name, "Solo Low");
    assert_eq!(search_results[1].seeders, 7);
}

// Three adapters with single results ranked 1000, 500, 100.
#[test]
fn test_three_adapters_ranked() {
    let searcher = Searcher::new()
        .using(MockTorrentSource::default().with_results(vec![result(
            "Mid", 500, 5, "1 GB", "magnet:mid",
        )]))
        .using(MockTorrentSource::default().with_results(vec![result(
            "Top", 1000, 5, "1 GB", "magnet:top",
        )]))
        .using(MockTorrentSource::default().with_results(vec![result(
            "Bottom", 100, 5, "1 GB", "magnet:bottom",
        )]));

    let search_results = searcher.search("test");

    assert_eq!(search_results.len(), 3);
    assert_eq!(search_results[0].seeders, 1000);
    assert_eq!(search_results[1].seeders, 500);
    assert_eq!(search_results[2].seeders, 100);
}

// Two entries with the same (name, url) but different seeder counts
// collapse to one entry: the first occurrence.
#[test]
fn test_duplicate_identity_different_seeders() {
    let searcher = Searcher::new().using(MockTorrentSource::default().with_results(vec![
        result("Twin", 100, 1, "1 GB", "magnet:twin"),
        result("Twin", 200, 2, "2 GB", "magnet:twin"),
    ]));

    let search_results = searcher.search("test");

    assert_eq!(search_results.len(), 1);
    assert_eq!(search_results[0].seeders, 100);
    assert_eq!(search_results[0].size, "1 GB");
}

// Duplicates across different adapters are removed too, wherever they land.
#[test]
fn test_cross_adapter_deduplication() {
    let searcher = Searcher::new()
        .using(MockTorrentSource::default().with_results(vec![
            result("Shared", 50, 1, "1 GB", "magnet:shared"),
            result("Only A", 800, 1, "1 GB", "magnet:a"),
        ]))
        .using(MockTorrentSource::default().with_results(vec![
            result("Shared", 700, 9, "9 GB", "magnet:shared"),
        ]));

    let search_results = searcher.search("test");

    assert_eq!(search_results.len(), 2);
    assert_eq!(search_results[0].name, "Only A");
    assert_eq!(search_results[1].name, "Shared");
    assert_eq!(search_results[1].seeders, 50);
}

// Equal seeder counts keep their first-seen order (stable ranking).
#[test]
fn test_equal_seeders_stable_order() {
    let combined = vec![
        result("First", 500, 1, "1 GB", "magnet:first"),
        result("Second", 500, 2, "1 GB", "magnet:second"),
        result("Above", 900, 3, "1 GB", "magnet:above"),
        result("Third", 500, 4, "1 GB", "magnet:third"),
    ];

    let merged = merge_rank(combined);

    assert_eq!(merged.len(), 4);
    assert_eq!(merged[0].name, "Above");
    assert_eq!(merged[1].name, "First");
    assert_eq!(merged[2].name, "Second");
    assert_eq!(merged[3].name, "Third");
}

// Only a success response contributes content; a failed exchange or a
// non-success response is no content.
#[test]
fn accept_response_gates_on_status() {
    assert_eq!(
        accept_response(Some((true, "body".to_string()))),
        Some("body".to_string())
    );
    assert_eq!(accept_response(Some((false, "body".to_string()))), None);
    assert_eq!(accept_response(None), None);
}

// merge_rank on a concrete combined list: dedup first, then rank.
#[test]
fn test_merge_rank_exact() {
    let combined = vec![
        result("B", 10, 1, "1 GB", "magnet:b"),
        result("A", 30, 1, "1 GB", "magnet:a"),
        result("B", 99, 1, "1 GB", "magnet:b"),
        result("C", 20, 1, "1 GB", "magnet:c"),
    ];

    let merged = merge_rank(combined);

    assert_eq!(merged.len(), 3);
    assert_eq!(merged[0].name, "A");
    assert_eq!(merged[0].seeders, 30);
    assert_eq!(merged[1].name, "C");
    assert_eq!(merged[1].seeders, 20);
    assert_eq!(merged[2].name, "B");
    assert_eq!(merged[2].seeders, 10);
}
