use rate_mirrors::config::{AppError, FetchCause, FetchMirrors, LogFormatter};
use rate_mirrors::countries::Country;
use rate_mirrors::mirror::Mirror;
use rate_mirrors::target_configs::archlinux::{ArchTarget, SortingStrategy};
use rate_mirrors::targets::archlinux::{progress_message, ArchMirror};

fn entry(url: &str, completion_pct: Option<i64>, delay: Option<i64>) -> ArchMirror {
    ArchMirror {
        protocol: "https".to_string(),
        url: url.to_string(),
        score: None,
        delay,
        country_code: "DE".to_string(),
        completion_pct,
    }
}

fn target(strategy: SortingStrategy) -> ArchTarget {
    ArchTarget {
        path_to_test: "core/os/x86_64/core.db".to_string(),
        comment_prefix: "# ".to_string(),
        completion: 90,
        max_delay: 20,
        sort_mirrors_by: strategy,
        fetch_first_tier_only: false,
        fetch_mirrors_timeout: 15000,
    }
}

fn urls(mirrors: &[Mirror]) -> Vec<String> {
    mirrors.iter().map(|m| m.url.clone()).collect()
}

#[test]
fn structured_payload_keeps_only_the_entry_within_thresholds() {
    let entries = vec![
        entry("https://good.example.org/arch/", Some(99), Some(10)),
        entry("https://stale.example.org/arch/", Some(50), Some(5)),
    ];
    let mut progress = Vec::new();
    let mirrors = target(SortingStrategy::DelayAscending)
        .fetch_mirrors(Ok(entries), &mut progress)
        .unwrap();
    assert_eq!(
        mirrors,
        vec![Mirror {
            country: Country::from_str("DE"),
            url: "https://good.example.org/arch/".to_string(),
            url_to_test: "https://good.example.org/arch/core/os/x86_64/core.db".to_string(),
        }]
    );
    assert_eq!(progress, vec!["FETCHED MIRRORS: 2".to_string()]);
}

#[test]
fn accepts_needs_both_numbers_and_both_thresholds() {
    let t = target(SortingStrategy::Random);
    assert!(t.accepts(&entry("https://a.example/", Some(90), Some(20))));
    assert!(t.accepts(&entry("https://a.example/", Some(100), Some(-3))));
    assert!(!t.accepts(&entry("https://a.example/", Some(89), Some(20))));
    assert!(!t.accepts(&entry("https://a.example/", Some(90), Some(21))));
    assert!(!t.accepts(&entry("https://a.example/", None, Some(1))));
    assert!(!t.accepts(&entry("https://a.example/", Some(99), None)));
    assert!(!t.accepts(&entry("https://a.example/", None, None)));
}

#[test]
fn retain_accepted_keeps_order_and_thresholds_hold() {
    let t = target(SortingStrategy::Random);
    let entries = vec![
        entry("https://a.example/", Some(95), Some(3)),
        entry("https://b.example/", Some(10), Some(3)),
        entry("https://c.example/", Some(90), Some(20)),
        entry("https://d.example/", Some(99), Some(2000)),
        entry("https://e.example/", None, Some(1)),
    ];
    let accepted = t.retain_accepted(entries);
    let kept: Vec<&str> = accepted.iter().map(|m| m.url.as_str()).collect();
    assert_eq!(kept, vec!["https://a.example/", "https://c.example/"]);
    for m in &accepted {
        assert!(m.completion_pct.unwrap() >= t.completion);
        assert!(m.delay.unwrap() <= t.max_delay);
    }
}

#[test]
fn malformed_entries_are_left_out_without_failing() {
    let entries = vec![
        entry("not a url", Some(99), Some(1)),
        entry("https://ok.example.org/", Some(99), Some(2)),
        entry("", Some(99), Some(3)),
        entry("mailto:someone@example.org", Some(99), Some(4)),
        entry("https://no-delay.example.org/", Some(99), None),
    ];
    let mut progress = Vec::new();
    let result = target(SortingStrategy::DelayAscending).fetch_mirrors(Ok(entries), &mut progress);
    let mirrors = result.unwrap();
    assert_eq!(urls(&mirrors), vec!["https://ok.example.org/".to_string()]);
    assert_eq!(progress, vec!["FETCHED MIRRORS: 5".to_string()]);
}

#[test]
fn failed_fetch_is_handed_on_with_no_mirror_and_no_progress() {
    let mut progress = vec!["earlier".to_string()];
    let result = target(SortingStrategy::DelayAscending)
        .fetch_mirrors(Err(AppError::FetchError(FetchCause::Timeout)), &mut progress);
    assert_eq!(result, Err(AppError::FetchError(FetchCause::Timeout)));
    assert_eq!(progress, vec!["earlier".to_string()]);
}

#[test]
fn empty_payload_gives_no_mirror() {
    let mut progress = Vec::new();
    let mirrors = target(SortingStrategy::ScoreDescending)
        .fetch_mirrors(Ok(Vec::new()), &mut progress)
        .unwrap();
    assert!(mirrors.is_empty());
    assert_eq!(progress, vec!["FETCHED MIRRORS: 0".to_string()]);
}

#[test]
fn mirrors_come_out_in_the_order_of_the_strategy() {
    let entries = vec![
        entry("https://c.example/", Some(99), Some(15)),
        entry("https://a.example/", Some(99), Some(5)),
        entry("https://b.example/", Some(99), Some(10)),
    ];
    let mut progress = Vec::new();
    let up = target(SortingStrategy::DelayAscending)
        .fetch_mirrors(Ok(entries.clone()), &mut progress)
        .unwrap();
    assert_eq!(
        urls(&up),
        vec!["https://a.example/", "https://b.example/", "https://c.example/"]
    );
    let down = target(SortingStrategy::DelayDescending)
        .fetch_mirrors(Ok(entries), &mut progress)
        .unwrap();
    assert_eq!(
        urls(&down),
        vec!["https://c.example/", "https://b.example/", "https://a.example/"]
    );
}

#[test]
fn random_strategy_yields_every_accepted_mirror_once() {
    let entries: Vec<ArchMirror> = (0..50)
        .map(|i| entry(&format!("https://m{}.example/", i), Some(99), Some(i)))
        .collect();
    let mut progress = Vec::new();
    let mirrors = target(SortingStrategy::Random)
        .fetch_mirrors(Ok(entries), &mut progress)
        .unwrap();
    let mut got = urls(&mirrors);
    got.sort();
    let mut expected: Vec<String> = (0..=20).map(|i| format!("https://m{}.example/", i)).collect();
    expected.sort();
    assert_eq!(got, expected);
}

#[test]
fn to_mirror_resolves_url_path_and_country() {
    let t = target(SortingStrategy::Random);
    let mut e = entry("HTTPS://Example.ORG/archlinux", Some(99), Some(1));
    e.country_code = "FR".to_string();
    let mirror = t.to_mirror(&e).unwrap();
    assert_eq!(mirror.url, "https://example.org/archlinux");
    assert_eq!(mirror.url_to_test, "https://example.org/core/os/x86_64/core.db");
    assert_eq!(mirror.country.unwrap().code(), "FR");
}

#[test]
fn to_mirror_leaves_unrecognized_country_out() {
    let t = target(SortingStrategy::Random);
    let mut e = entry("https://example.org/", Some(99), Some(1));
    e.country_code = "".to_string();
    assert_eq!(t.to_mirror(&e).unwrap().country, None);
    e.country_code = "Germany".to_string();
    assert_eq!(t.to_mirror(&e).unwrap().country, None);
}

#[test]
fn to_mirror_gives_nothing_for_a_bad_url() {
    let t = target(SortingStrategy::Random);
    assert_eq!(t.to_mirror(&entry("//example.org/", Some(99), Some(1))), None);
    assert_eq!(t.to_mirror(&entry("data:text/plain,hello", Some(99), Some(1))), None);
}

#[test]
fn normalize_keeps_order_and_drops_failures() {
    let t = target(SortingStrategy::Random);
    let entries = vec![
        entry("https://b.example/", None, None),
        entry("nonsense", None, None),
        entry("https://a.example/", None, None),
    ];
    let mirrors = t.normalize(&entries);
    assert_eq!(urls(&mirrors), vec!["https://b.example/", "https://a.example/"]);
}

#[test]
fn arch_format_comment_prepends_the_prefix() {
    let t = target(SortingStrategy::Random);
    assert_eq!(t.format_comment("STARTED"), "# STARTED");
    assert_eq!(t.format_comment(""), "# ");
}

#[test]
fn arch_format_mirror_writes_the_server_directive() {
    let t = target(SortingStrategy::Random);
    let mirror = Mirror {
        country: None,
        url: "https://example.org/archlinux/".to_string(),
        url_to_test: "https://example.org/archlinux/core/os/x86_64/core.db".to_string(),
    };
    assert_eq!(
        t.format_mirror(&mirror),
        "Server = https://example.org/archlinux/$repo/os/$arch"
    );
}

#[test]
fn arch_fetch_plan_names_both_endpoints() {
    let mut t = target(SortingStrategy::Random);
    let plan = t.fetch_plan();
    assert_eq!(plan.primary_url, "https://cachyos.org/archlinuxmirrorlist/api/status");
    assert_eq!(plan.fallback_url, "https://archlinux.org/mirrors/status/json/");
    assert_eq!(plan.timeout_ms, 15000);
    assert_eq!(plan.fallback_notice, "# Falling back mirrorlist url to archlinux");
    t.fetch_first_tier_only = true;
    t.fetch_mirrors_timeout = 3;
    let plan = t.fetch_plan();
    assert_eq!(plan.primary_url, "https://cachyos.org/archlinuxmirrorlist/api/tier1");
    assert_eq!(plan.fallback_url, "https://archlinux.org/mirrors/status/tier/1/json/");
    assert_eq!(plan.timeout_ms, 3);
}

#[test]
fn progress_message_counts_in_decimal() {
    assert_eq!(progress_message(0), "FETCHED MIRRORS: 0");
    assert_eq!(progress_message(7), "FETCHED MIRRORS: 7");
    assert_eq!(progress_message(1024), "FETCHED MIRRORS: 1024");
}
