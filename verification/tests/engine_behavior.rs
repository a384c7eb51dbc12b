use appgrep::app::{parse_source, AppSource, Application};
use appgrep::engine::{normalize_exec, DiscoveryEngine, ProviderReport};
use appgrep::error::AppError;
use appgrep::provider::ProviderError;

fn make_app(name: &str, exec: &str, source: AppSource) -> Application {
    Application {
        name: name.to_string(),
        exec_command: exec.to_string(),
        source,
        location: String::new(),
        icon: None,
        categories: Vec::new(),
        description: None,
    }
}

fn make_app_with_desc(
    name: &str,
    exec: &str,
    source: AppSource,
    desc: Option<&str>,
) -> Application {
    Application {
        name: name.to_string(),
        exec_command: exec.to_string(),
        source,
        location: String::new(),
        icon: None,
        categories: Vec::new(),
        description: desc.map(|s| s.to_string()),
    }
}

#[test]
fn test_deduplicate_prefers_desktop_over_standalone() {
    let apps = vec![
        make_app("Firefox", "/usr/bin/firefox", AppSource::Standalone),
        make_app("Firefox", "/usr/bin/firefox", AppSource::Desktop),
    ];
    let deduped = DiscoveryEngine::deduplicate(apps);
    assert_eq!(deduped.len(), 1);
    assert_eq!(deduped[0].source, AppSource::Desktop);
}

#[test]
fn test_deduplicate_prefers_more_metadata() {
    let apps = vec![
        make_app("Firefox", "/usr/bin/firefox", AppSource::Desktop),
        make_app_with_desc(
            "Firefox",
            "/usr/bin/firefox",
            AppSource::Desktop,
            Some("Web Browser"),
        ),
    ];
    let deduped = DiscoveryEngine::deduplicate(apps);
    assert_eq!(deduped.len(), 1);
    assert!(deduped[0].description.is_some());
}

#[test]
fn test_deduplicate_different_apps_kept() {
    let apps = vec![
        make_app("Firefox", "/usr/bin/firefox", AppSource::Desktop),
        make_app("GIMP", "/usr/bin/gimp", AppSource::Desktop),
    ];
    let deduped = DiscoveryEngine::deduplicate(apps);
    assert_eq!(deduped.len(), 2);
}

#[test]
fn test_find_by_name_exact() {
    let apps = vec![
        make_app("Firefox", "/usr/bin/firefox", AppSource::Desktop),
        make_app("GIMP", "/usr/bin/gimp", AppSource::Desktop),
    ];
    let engine = DiscoveryEngine::new();
    let found = engine.find_by_name("firefox", &apps);
    assert!(found.is_some());
    assert_eq!(found.unwrap().name, "Firefox");
}

#[test]
fn test_find_by_name_fuzzy() {
    let apps = vec![
        make_app("Firefox Web Browser", "/usr/bin/firefox", AppSource::Desktop),
        make_app("GIMP", "/usr/bin/gimp", AppSource::Desktop),
    ];
    let engine = DiscoveryEngine::new();
    let found = engine.find_by_name("firefox", &apps);
    assert!(found.is_some());
    assert!(found.unwrap().name.contains("Firefox"));
}

#[test]
fn test_search() {
    let apps = vec![
        make_app_with_desc(
            "Firefox",
            "/usr/bin/firefox",
            AppSource::Desktop,
            Some("Web Browser"),
        ),
        make_app("GIMP", "/usr/bin/gimp", AppSource::Desktop),
        make_app("Thunderbird", "/usr/bin/thunderbird", AppSource::Desktop),
    ];
    let engine = DiscoveryEngine::new();
    let results = engine.search("fire", &apps);
    assert!(!results.is_empty());
    assert_eq!(results[0].name, "Firefox");
}

#[test]
fn test_normalize_exec() {
    assert_eq!(normalize_exec("/usr/bin/firefox"), "/usr/bin/firefox");
    assert_eq!(
        normalize_exec("\"/path/with spaces/app\" --arg"),
        "/path/with spaces/app"
    );
    assert_eq!(normalize_exec("  /usr/bin/app  "), "/usr/bin/app");
}

#[test]
fn test_normalize_exec_lowercases() {
    assert_eq!(normalize_exec("/usr/bin/App"), "/usr/bin/app");
    assert_eq!(normalize_exec("/usr/bin/app --flag"), "/usr/bin/app");
}

#[test]
fn test_deduplicate_is_idempotent() {
    let apps = vec![
        make_app("Firefox", "/usr/bin/firefox", AppSource::Standalone),
        make_app("Firefox", "/usr/bin/firefox", AppSource::Desktop),
        make_app("GIMP", "/usr/bin/gimp", AppSource::Desktop),
    ];
    let once = DiscoveryEngine::deduplicate(apps);
    let names_once: Vec<String> = once.iter().map(|a| a.name.clone()).collect();
    let sources_once: Vec<AppSource> = once.iter().map(|a| a.source).collect();
    let twice = DiscoveryEngine::deduplicate(once);
    let names_twice: Vec<String> = twice.iter().map(|a| a.name.clone()).collect();
    let sources_twice: Vec<AppSource> = twice.iter().map(|a| a.source).collect();
    assert_eq!(names_once, names_twice);
    assert_eq!(sources_once, sources_twice);
}

#[test]
fn test_deduplicate_full_tie_keeps_first() {
    let mut first = make_app("One", "/usr/bin/tool", AppSource::Desktop);
    first.location = "a".to_string();
    let mut second = make_app("Two", "/usr/bin/tool", AppSource::Desktop);
    second.location = "b".to_string();
    let deduped = DiscoveryEngine::deduplicate(vec![first, second]);
    assert_eq!(deduped.len(), 1);
    assert_eq!(deduped[0].name, "One");
}

#[test]
fn test_find_by_name_exact_beats_fuzzy() {
    let apps = vec![
        make_app("Firefox Web Browser", "/usr/bin/fwb", AppSource::Desktop),
        make_app("Firefox", "/usr/bin/firefox", AppSource::Desktop),
    ];
    let engine = DiscoveryEngine::new();
    let found = engine.find_by_name("firefox", &apps).unwrap();
    assert_eq!(found.name, "Firefox");
}

#[test]
fn test_find_by_name_fuzzy_tie_keeps_earliest() {
    let mut first = make_app("abc fir xyz", "/usr/bin/one", AppSource::Desktop);
    first.location = "one".to_string();
    let mut second = make_app("abc fir xyz", "/usr/bin/two", AppSource::Desktop);
    second.location = "two".to_string();
    let engine = DiscoveryEngine::new();
    let found = engine.find_by_name("fir", &vec![first, second]).unwrap();
    assert_eq!(found.location, "one");
}

#[test]
fn test_find_by_name_absent() {
    let apps = vec![make_app("GIMP", "/usr/bin/gimp", AppSource::Desktop)];
    let engine = DiscoveryEngine::new();
    assert!(engine.find_by_name("zzqqxx", &apps).is_none());
}

#[test]
fn test_search_orders_by_score_and_keeps_catalog_order_on_ties() {
    let apps = vec![
        make_app("fir", "/usr/bin/a", AppSource::Desktop),
        make_app("Firefox Browser Extra", "/usr/bin/b", AppSource::Desktop),
        make_app("fir", "/usr/bin/c", AppSource::Snap),
        make_app("GIMP", "/usr/bin/gimp", AppSource::Desktop),
    ];
    let engine = DiscoveryEngine::new();
    let results = engine.search("fir", &apps);
    assert_eq!(results.len(), 3);
    // The two exact "fir" entries score alike and stay in catalog order.
    assert_eq!(results[0].name, "fir");
    assert_eq!(results[0].exec_command, "/usr/bin/a");
    assert_eq!(results[1].name, "fir");
    assert_eq!(results[1].exec_command, "/usr/bin/c");
    assert_eq!(results[2].name, "Firefox Browser Extra");
}

#[test]
fn test_search_no_match_is_empty() {
    let apps = vec![make_app("GIMP", "/usr/bin/gimp", AppSource::Desktop)];
    let engine = DiscoveryEngine::new();
    assert!(engine.search("zzqqxx", &apps).is_empty());
}

#[test]
fn test_merge_isolates_failing_provider() {
    let reports = vec![
        ProviderReport {
            provider: "flatpak".to_string(),
            outcome: Ok(vec![make_app("Firefox", "/usr/bin/firefox", AppSource::Flatpak)]),
        },
        ProviderReport {
            provider: "snap".to_string(),
            outcome: Err(ProviderError::Io("boom".to_string())),
        },
        ProviderReport {
            provider: "desktop".to_string(),
            outcome: Ok(vec![make_app("GIMP", "/usr/bin/gimp", AppSource::Desktop)]),
        },
    ];
    let (catalog, warnings) = DiscoveryEngine::merge_discovered(reports);
    assert_eq!(catalog.len(), 2);
    assert_eq!(catalog[0].name, "Firefox");
    assert_eq!(catalog[1].name, "GIMP");
    assert_eq!(warnings.len(), 1);
    assert_eq!(warnings[0], "provider 'snap' failed: io error: boom");
}

#[test]
fn test_merge_dedups_and_sorts() {
    let reports = vec![
        ProviderReport {
            provider: "standalone".to_string(),
            outcome: Ok(vec![
                make_app("zed", "/usr/bin/zed", AppSource::Standalone),
                make_app("Firefox", "/usr/bin/firefox", AppSource::Standalone),
            ]),
        },
        ProviderReport {
            provider: "desktop".to_string(),
            outcome: Ok(vec![make_app("Firefox", "/usr/bin/firefox", AppSource::Desktop)]),
        },
    ];
    let (catalog, warnings) = DiscoveryEngine::merge_discovered(reports);
    assert!(warnings.is_empty());
    assert_eq!(catalog.len(), 2);
    assert_eq!(catalog[0].name, "Firefox");
    assert_eq!(catalog[0].source, AppSource::Desktop);
    assert_eq!(catalog[1].name, "zed");
}

#[test]
fn test_sort_catalog_is_case_insensitive_then_priority() {
    let apps = vec![
        make_app("beta", "/usr/bin/beta", AppSource::Desktop),
        make_app("Alpha", "/usr/bin/alpha2", AppSource::Snap),
        make_app("alpha", "/usr/bin/alpha1", AppSource::Desktop),
    ];
    let sorted = appgrep::engine::sort_catalog(apps);
    assert_eq!(sorted[0].exec_command, "/usr/bin/alpha1");
    assert_eq!(sorted[1].exec_command, "/usr/bin/alpha2");
    assert_eq!(sorted[2].name, "beta");
}

#[test]
fn test_filter_by_sources_membership() {
    let apps = vec![
        make_app("a", "/usr/bin/a", AppSource::Desktop),
        make_app("b", "/usr/bin/b", AppSource::Snap),
        make_app("c", "/usr/bin/c", AppSource::Cargo),
    ];
    let filtered =
        DiscoveryEngine::filter_by_sources(apps, &vec![AppSource::Cargo, AppSource::Desktop]);
    assert_eq!(filtered.len(), 2);
    assert_eq!(filtered[0].name, "a");
    assert_eq!(filtered[1].name, "c");
}

#[test]
fn test_parse_source_accepts_labels() {
    assert_eq!(parse_source("desktop").unwrap(), AppSource::Desktop);
    assert_eq!(parse_source("FLATPAK").unwrap(), AppSource::Flatpak);
    assert_eq!(parse_source("Brew").unwrap(), AppSource::Brew);
}

#[test]
fn test_parse_source_rejects_unknown() {
    let err = parse_source("weird").unwrap_err();
    assert_eq!(
        err,
        "invalid source 'weird': expected desktop, flatpak, snap, standalone, cargo, npm, dpkg, rpm, pacman, or brew"
    );
}

#[test]
fn test_source_labels_and_priorities() {
    let pairs = [
        (AppSource::Desktop, "desktop", 0u8),
        (AppSource::Flatpak, "flatpak", 1),
        (AppSource::Snap, "snap", 2),
        (AppSource::Standalone, "standalone", 3),
        (AppSource::Cargo, "cargo", 4),
        (AppSource::Npm, "npm", 5),
        (AppSource::Dpkg, "dpkg", 6),
        (AppSource::Rpm, "rpm", 7),
        (AppSource::Pacman, "pacman", 8),
        (AppSource::Brew, "brew", 9),
    ];
    for (s, label, prio) in pairs {
        assert_eq!(s.label(), label);
        assert_eq!(s.priority(), prio);
    }
}

#[test]
fn test_provider_error_messages() {
    assert_eq!(
        ProviderError::ToolNotAvailable("snap".to_string()).message(),
        "tool not available: snap"
    );
    assert_eq!(
        ProviderError::PermissionDenied("/etc".to_string()).message(),
        "permission denied: /etc"
    );
    assert_eq!(
        ProviderError::ParseError("bad line".to_string()).message(),
        "parse error: bad line"
    );
    assert_eq!(ProviderError::Io("eof".to_string()).message(), "io error: eof");
}

#[test]
fn test_app_error_messages() {
    assert_eq!(
        AppError::Provider(ProviderError::Io("eof".to_string())).message(),
        "provider error: io error: eof"
    );
    assert_eq!(
        AppError::Output("pipe".to_string()).message(),
        "output error: pipe"
    );
    assert_eq!(
        AppError::NotFound("gimp".to_string()).message(),
        "application not found: gimp"
    );
    assert_eq!(AppError::Io("disk".to_string()).message(), "io error: disk");
}

#[test]
fn test_normalize_exec_unclosed_quote_takes_first_token() {
    assert_eq!(normalize_exec("\"/broken path --arg"), "\"/broken");
    assert_eq!(normalize_exec(""), "");
}

#[test]
fn test_filter_by_sources_empty_set() {
    let apps = vec![make_app("a", "/usr/bin/a", AppSource::Desktop)];
    let filtered = DiscoveryEngine::filter_by_sources(apps, &Vec::new());
    assert!(filtered.is_empty());
}

#[test]
fn test_metadata_richness_counts() {
    let mut app = make_app("a", "/usr/bin/a", AppSource::Desktop);
    assert_eq!(app.metadata_richness(), 0);
    app.icon = Some("i".to_string());
    assert_eq!(app.metadata_richness(), 1);
    app.categories = vec!["X".to_string()];
    assert_eq!(app.metadata_richness(), 2);
    app.description = Some("d".to_string());
    assert_eq!(app.metadata_richness(), 3);
}
