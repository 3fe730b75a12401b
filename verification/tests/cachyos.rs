use rate_mirrors::config::{AppError, FetchCause, FetchMirrors, LogFormatter};
use rate_mirrors::mirror::Mirror;
use rate_mirrors::target_configs::cachyos::CachyOSTarget;
use rate_mirrors::targets::cachyos::{candidate_urls, resolve_candidates};

fn target(arch: &str) -> CachyOSTarget {
    CachyOSTarget {
        path_to_test: "x86_64/cachyos/cachyos.db".to_string(),
        comment_prefix: "# ".to_string(),
        arch: arch.to_string(),
        fetch_mirrors_timeout: 15000,
    }
}

#[test]
fn line_payload_yields_one_mirror_with_placeholders_stripped() {
    let payload = "# comment\nServer = https://example.org/$arch/$repo\n".to_string();
    let mut progress = Vec::new();
    let mirrors = target("auto").fetch_mirrors(Ok(payload), &mut progress).unwrap();
    assert_eq!(
        mirrors,
        vec![Mirror {
            country: None,
            url: "https://example.org/".to_string(),
            url_to_test: "https://example.org/x86_64/cachyos/cachyos.db".to_string(),
        }]
    );
    assert!(progress.is_empty());
}

#[test]
fn candidate_urls_skip_comments_and_blank_lines() {
    let payload = "## CachyOS\n\n#Server = https://off.example/$arch/$repo\nServer = https://a.example/repo/$arch/$repo\r\n\r\nServer = \nhttps://b.example/\nServer = https://c.example/$arch/$repo";
    assert_eq!(
        candidate_urls(payload),
        vec!["https://a.example/repo/", "https://b.example/", "https://c.example/"]
    );
}

#[test]
fn candidate_urls_take_every_occurrence_of_the_tokens_out() {
    assert_eq!(
        candidate_urls("  Server = Server = https://a.example/$arch/$repo$arch/$repo"),
        vec!["  https://a.example/"]
    );
    assert_eq!(candidate_urls("Server =https://a.example/"), vec!["Server =https://a.example/"]);
    assert_eq!(candidate_urls("Server = $arch/$repo"), Vec::<String>::new());
    assert_eq!(candidate_urls("$arch/Server = $repo"), Vec::<String>::new());
    assert_eq!(candidate_urls("Ser$arch/$repover = https://a.example/"), vec!["Server = https://a.example/"]);
}

#[test]
fn candidate_urls_of_empty_payload() {
    assert_eq!(candidate_urls(""), Vec::<String>::new());
    assert_eq!(candidate_urls("\n\n"), Vec::<String>::new());
}

#[test]
fn lines_that_are_no_urls_are_left_out_without_failing() {
    let payload = "Server = https://a.example/$arch/$repo\nthis is no url\nServer = ://broken\nServer = https://b.example/$arch/$repo\n".to_string();
    let mut progress = Vec::new();
    let mirrors = target("auto").fetch_mirrors(Ok(payload), &mut progress).unwrap();
    let urls: Vec<&str> = mirrors.iter().map(|m| m.url.as_str()).collect();
    assert_eq!(urls, vec!["https://a.example/", "https://b.example/"]);
}

#[test]
fn an_entry_whose_test_path_does_not_join_is_left_out() {
    let urls = vec!["mailto:admin@example.org".to_string(), "https://a.example/".to_string()];
    let mirrors = resolve_candidates(&urls, "x86_64/cachyos/cachyos.db");
    assert_eq!(mirrors.len(), 1);
    assert_eq!(mirrors[0].url, "https://a.example/");
    assert_eq!(mirrors[0].url_to_test, "https://a.example/x86_64/cachyos/cachyos.db");
}

#[test]
fn cachyos_failed_fetch_is_handed_on() {
    let mut progress = Vec::new();
    let result = target("auto").fetch_mirrors(Err(AppError::FetchError(FetchCause::Status)), &mut progress);
    assert_eq!(result, Err(AppError::FetchError(FetchCause::Status)));
    assert!(progress.is_empty());
}

#[test]
fn cachyos_format_comment_prepends_the_prefix() {
    assert_eq!(target("auto").format_comment("FETCHED"), "# FETCHED");
}

#[test]
fn cachyos_format_mirror_uses_placeholder_for_auto() {
    let mirror = Mirror {
        country: None,
        url: "https://example.org/".to_string(),
        url_to_test: "https://example.org/x86_64/cachyos/cachyos.db".to_string(),
    };
    assert_eq!(target("auto").format_mirror(&mirror), "Server = https://example.org/$arch/$repo");
    assert_eq!(
        target("x86_64_v3").format_mirror(&mirror),
        "Server = https://example.org/x86_64_v3/$repo"
    );
    assert_eq!(target("").format_mirror(&mirror), "Server = https://example.org//$repo");
}

#[test]
fn cachyos_fetch_plan_names_both_endpoints() {
    let plan = target("auto").fetch_plan();
    assert_eq!(
        plan.primary_url,
        "https://cachyos.org/archlinuxmirrorlist/api/cachyos-mirrorlist"
    );
    assert_eq!(
        plan.fallback_url,
        "https://raw.githubusercontent.com/CachyOS/CachyOS-PKGBUILDS/master/cachyos-mirrorlist/cachyos-mirrorlist"
    );
    assert_eq!(plan.timeout_ms, 15000);
    assert_eq!(plan.fallback_notice, "# Falling back mirrorlist url");
}
