use appgrep::app::AppSource;
use appgrep::provider::brew::BrewProvider;
use appgrep::provider::cargo::CargoProvider;
use appgrep::provider::desktop::{app_dirs_from, strip_field_codes, DesktopProvider};
use appgrep::provider::dpkg::DpkgProvider;
use appgrep::provider::flatpak::FlatpakProvider;
use appgrep::provider::npm::NpmProvider;
use appgrep::provider::pacman::PacmanProvider;
use appgrep::provider::rpm::RpmProvider;
use appgrep::provider::snap::SnapProvider;
use appgrep::provider::standalone::{strip_arch_suffix, strip_version_suffix, StandaloneProvider};
use appgrep::provider::{
    assemble_package_apps, bin_dir_application, binary_candidates, desktop_file_claims,
    file_name_of, package_application,
};

#[test]
fn test_parse_flatpak_output() {
    let output = "Firefox\torg.mozilla.firefox\tWeb Browser\nLibreOffice\torg.libreoffice.LibreOffice\tOffice Suite\n";
    let apps = FlatpakProvider::parse_flatpak_output(output);
    assert_eq!(apps.len(), 2);
    assert_eq!(apps[0].name, "Firefox");
    assert_eq!(apps[0].exec_command, "flatpak run org.mozilla.firefox");
    assert_eq!(apps[0].location, "org.mozilla.firefox");
    assert_eq!(apps[0].description, Some("Web Browser".to_string()));
    assert_eq!(apps[1].name, "LibreOffice");
}

#[test]
fn test_parse_empty_output() {
    let apps = FlatpakProvider::parse_flatpak_output("");
    assert!(apps.is_empty());
}

#[test]
fn test_parse_malformed_line() {
    let apps = FlatpakProvider::parse_flatpak_output("OnlyOnePart\n");
    assert!(apps.is_empty());
}

#[test]
fn test_parse_no_description() {
    let apps = FlatpakProvider::parse_flatpak_output("MyApp\tcom.example.myapp\t\n");
    assert_eq!(apps.len(), 1);
    assert_eq!(apps[0].name, "MyApp");
    assert!(apps[0].description.is_none());
}

#[test]
fn test_parse_snap_list() {
    let output = "Name      Version    Rev    Tracking       Publisher   Notes\nfirefox   128.0      4173   latest/stable  mozilla     -\ncore22    20240111   1380   latest/stable  canonical   base\nspotify   1.2.26     73    latest/stable  spotify     -\n";
    let names = SnapProvider::parse_snap_list(output);
    assert_eq!(names, vec!["firefox", "core22", "spotify"]);
}

#[test]
fn test_parse_snap_list_skips_disabled() {
    let output = "Name      Version    Rev    Tracking       Publisher   Notes\nmyapp     1.0        10     latest/stable  me          disabled\nother     2.0        20     latest/stable  me          -\n";
    let names = SnapProvider::parse_snap_list(output);
    assert_eq!(names, vec!["other"]);
}

#[test]
fn test_parse_empty_snap_list() {
    let output = "Name      Version    Rev    Tracking       Publisher   Notes\n";
    let names = SnapProvider::parse_snap_list(output);
    assert!(names.is_empty());
}

#[test]
fn dpkg_test_provider_name() {
    let provider = DpkgProvider::new();
    assert_eq!(provider.name(), "dpkg");
}

#[test]
fn test_parse_dpkg_output_valid() {
    let output = "curl\tcommand line tool for transferring data\ngit\tfast, scalable, distributed revision control system\n";
    let packages = DpkgProvider::parse_dpkg_output(output);
    assert_eq!(packages.len(), 2);
    assert_eq!(packages[0].0, "curl");
    assert_eq!(
        packages[0].1,
        Some("command line tool for transferring data".to_string())
    );
    assert_eq!(packages[1].0, "git");
}

#[test]
fn test_parse_dpkg_output_empty() {
    let packages = DpkgProvider::parse_dpkg_output("");
    assert!(packages.is_empty());
}

#[test]
fn test_parse_dpkg_output_no_description() {
    let output = "somepackage\t\n";
    let packages = DpkgProvider::parse_dpkg_output(output);
    assert_eq!(packages.len(), 1);
    assert_eq!(packages[0].0, "somepackage");
    assert_eq!(packages[0].1, None);
}

#[test]
fn test_parse_dpkg_output_malformed() {
    let output = "\n\n  \n";
    let packages = DpkgProvider::parse_dpkg_output(output);
    assert!(packages.is_empty());
}

#[test]
fn dnf_test_provider_name() {
    let provider = RpmProvider::new();
    assert_eq!(provider.name(), "rpm");
}

#[test]
fn test_parse_rpm_output_valid() {
    let output = "curl\tA utility for getting files from remote servers\ngit\tFast Version Control System\n";
    let packages = RpmProvider::parse_rpm_output(output);
    assert_eq!(packages.len(), 2);
    assert_eq!(packages[0].0, "curl");
    assert!(packages[0].1.as_ref().unwrap().contains("remote servers"));
    assert_eq!(packages[1].0, "git");
}

#[test]
fn test_parse_rpm_output_empty() {
    let packages = RpmProvider::parse_rpm_output("");
    assert!(packages.is_empty());
}

#[test]
fn test_parse_rpm_output_no_description() {
    let output = "somepackage\t\n";
    let packages = RpmProvider::parse_rpm_output(output);
    assert_eq!(packages.len(), 1);
    assert_eq!(packages[0].1, None);
}

#[test]
fn test_parse_rpm_output_malformed() {
    let output = "\n   \n\n";
    let packages = RpmProvider::parse_rpm_output("");
    assert!(packages.is_empty());
    let _ = output;
}

#[test]
fn pacman_test_provider_name() {
    let provider = PacmanProvider::new();
    assert_eq!(provider.name(), "pacman");
}

#[test]
fn test_parse_pacman_info_valid() {
    let output = "\
Name            : git
Description     : the fast distributed version control system
Name            : curl
Description     : command line tool for transferring data
";
    let packages = PacmanProvider::parse_pacman_info(output);
    assert_eq!(packages.len(), 2);
    assert_eq!(packages[0].0, "git");
    assert_eq!(
        packages[0].1,
        Some("the fast distributed version control system".to_string())
    );
    assert_eq!(packages[1].0, "curl");
}

#[test]
fn test_parse_pacman_info_empty() {
    let packages = PacmanProvider::parse_pacman_info("");
    assert!(packages.is_empty());
}

#[test]
fn test_parse_pacman_info_single() {
    let output = "Name            : vim\nDescription     : Vi Improved\n";
    let packages = PacmanProvider::parse_pacman_info(output);
    assert_eq!(packages.len(), 1);
    assert_eq!(packages[0].0, "vim");
    assert_eq!(packages[0].1, Some("Vi Improved".to_string()));
}

#[test]
fn test_parse_pacman_info_no_description() {
    let output = "Name            : somepkg\n";
    let packages = PacmanProvider::parse_pacman_info(output);
    assert_eq!(packages.len(), 1);
    assert_eq!(packages[0].0, "somepkg");
    assert_eq!(packages[0].1, None);
}

#[test]
fn brew_test_provider_name() {
    let provider = BrewProvider::new();
    assert_eq!(provider.name(), "brew");
}

#[test]
fn test_parse_brew_json_valid() {
    let json = r#"{
        "formulae": [
            {"name": "git", "desc": "Distributed revision control system"},
            {"name": "wget", "desc": "Internet file retriever"}
        ],
        "casks": []
    }"#;
    let formulae = BrewProvider::parse_brew_json(json);
    assert_eq!(formulae.len(), 2);
    assert_eq!(formulae[0].0, "git");
    assert_eq!(
        formulae[0].1,
        Some("Distributed revision control system".to_string())
    );
    assert_eq!(formulae[1].0, "wget");
}

#[test]
fn test_parse_brew_json_empty() {
    let json = r#"{"formulae": [], "casks": []}"#;
    let formulae = BrewProvider::parse_brew_json(json);
    assert!(formulae.is_empty());
}

#[test]
fn test_parse_brew_json_invalid() {
    let formulae = BrewProvider::parse_brew_json("not json");
    assert!(formulae.is_empty());
}

#[test]
fn test_parse_brew_json_no_desc() {
    let json = r#"{
        "formulae": [
            {"name": "tool", "desc": null}
        ],
        "casks": []
    }"#;
    let formulae = BrewProvider::parse_brew_json(json);
    assert_eq!(formulae.len(), 1);
    assert_eq!(formulae[0].1, None);
}

#[test]
fn test_discover_empty_dir() {
    let provider = CargoProvider::new();
    assert_eq!(provider.name(), "cargo");
    assert!(provider.is_available());
}

#[test]
fn npm_test_provider_name() {
    let provider = NpmProvider::new();
    assert_eq!(provider.name(), "npm");
}

#[test]
fn test_extract_name_appimage() {
    assert_eq!(
        StandaloneProvider::extract_name("UltiMaker-Cura-5.9.0-linux-X64.AppImage"),
        "UltiMaker-Cura"
    );
}

#[test]
fn test_extract_name_versioned() {
    assert_eq!(
        StandaloneProvider::extract_name("Godot_v4.6-stable_linux.x86_64"),
        "Godot"
    );
}

#[test]
fn test_extract_name_simple() {
    assert_eq!(StandaloneProvider::extract_name("myapp"), "myapp");
}

#[test]
fn test_extract_name_version_number() {
    assert_eq!(
        StandaloneProvider::extract_name("MyApp-1.2.3-x86_64.AppImage"),
        "MyApp"
    );
}

#[test]
fn test_extract_name_plain_appimage() {
    assert_eq!(StandaloneProvider::extract_name("Logseq.AppImage"), "Logseq");
}

#[test]
fn test_strip_version_suffix() {
    assert_eq!(strip_version_suffix("app-1.2.3"), "app");
    assert_eq!(strip_version_suffix("app_v2.0"), "app");
    assert_eq!(strip_version_suffix("app"), "app");
    assert_eq!(strip_version_suffix("My-App-1.0.0"), "My-App");
}

#[test]
fn test_strip_arch_suffix() {
    assert_eq!(strip_arch_suffix("app-linux-X64"), "app");
    assert_eq!(strip_arch_suffix("app_linux.x86_64"), "app");
    assert_eq!(strip_arch_suffix("app-x86_64"), "app");
    assert_eq!(strip_arch_suffix("app"), "app");
}

#[test]
fn test_complex_appimage_names() {
    let cases = vec![
        ("UltiMaker-Cura-5.9.0-linux-X64.AppImage", "UltiMaker-Cura"),
        ("Godot_v4.6-stable_linux.x86_64", "Godot"),
        ("MyApp-1.2.3-x86_64.AppImage", "MyApp"),
        ("Logseq.AppImage", "Logseq"),
        ("simple-app", "simple-app"),
        ("Obsidian-1.7.7.AppImage", "Obsidian"),
        ("balenaEtcher-1.19.25-x64.AppImage", "balenaEtcher"),
    ];

    for (input, expected) in cases {
        let result = StandaloneProvider::extract_name(input);
        assert_eq!(
            result, expected,
            "extract_name({:?}) = {:?}, expected {:?}",
            input, result, expected
        );
    }
}

#[test]
fn test_source_priority_order() {
    // Desktop=0, Flatpak=1, Snap=2, Standalone=3
    assert!(0 < 1); // Desktop < Flatpak
    assert!(1 < 2); // Flatpak < Snap
    assert!(2 < 3); // Snap < Standalone
}

#[test]
fn test_strip_field_codes() {
    assert_eq!(strip_field_codes("/usr/bin/app %u"), "/usr/bin/app");
    assert_eq!(strip_field_codes("/usr/bin/app %f %F"), "/usr/bin/app");
    assert_eq!(
        strip_field_codes("/usr/bin/app --flag %U --other"),
        "/usr/bin/app --flag --other"
    );
    assert_eq!(strip_field_codes("app"), "app");
}

#[test]
fn test_parse_valid_desktop_entry() {
    let content = "[Desktop Entry]\nType=Application\nName=Firefox\nExec=/usr/bin/firefox %u\nIcon=firefox\nCategories=Network;WebBrowser;\nComment=Web Browser\n";
    let path = "/usr/share/applications/firefox.desktop";
    let result = DesktopProvider::parse_desktop_content(content, path)
        .unwrap()
        .unwrap();
    assert_eq!(result.name, "Firefox");
    assert_eq!(result.exec_command, "/usr/bin/firefox");
    assert_eq!(result.source, AppSource::Desktop);
    assert_eq!(result.icon, Some("firefox".to_string()));
    assert_eq!(result.categories, vec!["Network", "WebBrowser"]);
    assert_eq!(result.description, Some("Web Browser".to_string()));
}

#[test]
fn test_skip_nodisplay() {
    let content = "[Desktop Entry]\nType=Application\nName=Hidden App\nExec=/usr/bin/hidden\nNoDisplay=true\n";
    let result = DesktopProvider::parse_desktop_content(content, "/test/hidden.desktop").unwrap();
    assert!(result.is_none());
}

#[test]
fn test_skip_hidden() {
    let content =
        "[Desktop Entry]\nType=Application\nName=Hidden App\nExec=/usr/bin/hidden\nHidden=true\n";
    let result = DesktopProvider::parse_desktop_content(content, "/test/hidden.desktop").unwrap();
    assert!(result.is_none());
}

#[test]
fn test_skip_non_application_type() {
    let content = "[Desktop Entry]\nType=Link\nName=Some Link\nExec=/usr/bin/something\n";
    let result = DesktopProvider::parse_desktop_content(content, "/test/link.desktop").unwrap();
    assert!(result.is_none());
}

#[test]
fn test_unicode_name() {
    let content = "[Desktop Entry]\nType=Application\nName=Uc\u{0327}ode App \u{1f680}\nExec=/usr/bin/unicode-app\nComment=An app with unicode: emojis \u{2728}\n";
    let result = DesktopProvider::parse_desktop_content(content, "/test/unicode.desktop")
        .unwrap()
        .unwrap();
    assert!(result.name.contains("ode App"));
    assert!(result.description.is_some());
}

#[test]
fn test_missing_exec() {
    let content = "[Desktop Entry]\nType=Application\nName=No Exec App\n";
    let result = DesktopProvider::parse_desktop_content(content, "/test/noexec.desktop").unwrap();
    assert!(result.is_none());
}

#[test]
fn test_missing_name() {
    let content = "[Desktop Entry]\nType=Application\nExec=/usr/bin/something\n";
    let result = DesktopProvider::parse_desktop_content(content, "/test/noname.desktop").unwrap();
    assert!(result.is_none());
}

#[test]
fn test_desktop_comment_lines_ignored() {
    let content = "# a comment\n[Desktop Entry]\n# another\nType=Application\nName=App\nExec=/usr/bin/app\n";
    let result = DesktopProvider::parse_desktop_content(content, "/test/app.desktop")
        .unwrap()
        .unwrap();
    assert_eq!(result.name, "App");
}

#[test]
fn test_desktop_other_section_ignored() {
    let content = "[Desktop Entry]\nType=Application\nName=App\nExec=/usr/bin/app\n[Desktop Action new]\nName=Other\n";
    let result = DesktopProvider::parse_desktop_content(content, "/test/app.desktop")
        .unwrap()
        .unwrap();
    assert_eq!(result.name, "App");
}

#[test]
fn test_file_name_of_paths() {
    assert_eq!(file_name_of("/usr/bin/curl"), Some("curl".to_string()));
    assert_eq!(file_name_of("curl"), Some("curl".to_string()));
    assert_eq!(file_name_of("/usr/bin/"), None);
    assert_eq!(file_name_of("/usr/bin/.."), None);
}

#[test]
fn test_package_application_fields() {
    let app = package_application(
        "curl-pkg",
        Some("transfer tool".to_string()),
        "/usr/bin/curl".to_string(),
        AppSource::Dpkg,
    );
    assert_eq!(app.name, "curl");
    assert_eq!(app.exec_command, "/usr/bin/curl");
    assert_eq!(app.location, "/usr/bin/curl");
    assert_eq!(app.source, AppSource::Dpkg);
    assert_eq!(app.categories, vec!["CLI"]);
    assert_eq!(app.description, Some("transfer tool".to_string()));
    assert!(app.icon.is_none());
}

#[test]
fn test_binary_candidates_filtering() {
    let manifest = "/etc/curlrc\n/usr/bin/curl\n/usr/share/doc/curl\n/usr/sbin/curld\n/usr/local/bin/curl2\n";
    let c = binary_candidates(manifest);
    assert_eq!(c, vec!["/usr/bin/curl", "/usr/sbin/curld", "/usr/local/bin/curl2"]);
}

#[test]
fn test_pacman_candidates_rows() {
    let output = "curl /etc/curlrc\ncurl /usr/bin/curl\ncurl /usr/share/doc\n";
    let c = PacmanProvider::pacman_candidates(output);
    assert_eq!(c, vec!["/usr/bin/curl"]);
}

#[test]
fn test_desktop_file_claims_prefix() {
    let entries = vec![
        "firefox.desktop".to_string(),
        "org.gnome.Calculator.desktop".to_string(),
        "notes.txt".to_string(),
    ];
    assert!(desktop_file_claims(&entries, "firefox"));
    assert!(!desktop_file_claims(&entries, "notes"));
    assert!(!desktop_file_claims(&entries, "chromium"));
}

#[test]
fn test_assemble_package_apps_skips_and_dedups() {
    let pkgs = vec![
        ("aa".to_string(), Some("first".to_string())),
        ("bb".to_string(), None),
        ("cc".to_string(), None),
        ("dd".to_string(), None),
    ];
    let claimed = vec![false, true, false, false];
    let bins = vec![
        Some("/usr/bin/aa".to_string()),
        Some("/usr/bin/bb".to_string()),
        Some("/usr/bin/aa".to_string()),
        None,
    ];
    let apps = assemble_package_apps(&pkgs, &claimed, &bins, AppSource::Rpm);
    assert_eq!(apps.len(), 1);
    assert_eq!(apps[0].name, "aa");
    assert_eq!(apps[0].description, Some("first".to_string()));
    assert_eq!(apps[0].source, AppSource::Rpm);
}

#[test]
fn test_bin_dir_application_fields() {
    let app = bin_dir_application("mytool".to_string(), "/home/u/.cargo/bin/mytool", AppSource::Cargo);
    assert_eq!(app.name, "mytool");
    assert_eq!(app.exec_command, "/home/u/.cargo/bin/mytool");
    assert_eq!(app.categories, vec!["Development"]);
    assert!(app.description.is_none());
}

#[test]
fn test_npm_bin_from_root() {
    assert_eq!(
        NpmProvider::bin_from_root("/usr/lib/node_modules"),
        Some("/usr/lib/bin".to_string())
    );
    assert_eq!(NpmProvider::bin_from_root("/opt/npm"), None);
}

#[test]
fn test_npm_parent_bin() {
    assert_eq!(
        NpmProvider::parent_bin("/usr/lib/node_modules"),
        Some("/usr/lib/bin".to_string())
    );
    assert_eq!(NpmProvider::parent_bin("plain"), None);
}

#[test]
fn test_standalone_app_record() {
    let app = StandaloneProvider::standalone_app(
        "MyApp-1.2.3-x86_64.AppImage",
        "/home/u/Applications/MyApp-1.2.3-x86_64.AppImage",
    )
    .unwrap();
    assert_eq!(app.name, "MyApp");
    assert_eq!(app.source, AppSource::Standalone);
    assert_eq!(
        app.exec_command,
        "/home/u/Applications/MyApp-1.2.3-x86_64.AppImage"
    );
}

#[test]
fn test_standalone_app_empty_name() {
    assert!(StandaloneProvider::standalone_app("---", "/opt/---").is_none());
}

#[test]
fn test_desktop_enrichment_fields() {
    let content = "[Desktop Entry]\nName=Spotify\nIcon=spotify-icon\nCategories=Audio;Music;\nComment=Music player\n";
    let (name, icon, categories, desc) = SnapProvider::desktop_enrichment(content);
    assert_eq!(name, Some("Spotify".to_string()));
    assert_eq!(icon, Some("spotify-icon".to_string()));
    assert_eq!(categories, vec!["Audio", "Music"]);
    assert_eq!(desc, Some("Music player".to_string()));
}

#[test]
fn test_snap_app_uses_display_name() {
    let app = SnapProvider::snap_app(
        "spotify",
        Some("Spotify".to_string()),
        None,
        Vec::new(),
        None,
    );
    assert_eq!(app.name, "Spotify");
    assert_eq!(app.exec_command, "snap run spotify");
    assert_eq!(app.location, "spotify");
    assert_eq!(app.source, AppSource::Snap);

    let plain = SnapProvider::snap_app("core22", None, None, Vec::new(), None);
    assert_eq!(plain.name, "core22");
}

#[test]
fn test_formula_desc_lookup() {
    let rows = vec![
        ("git".to_string(), Some("vcs".to_string())),
        ("wget".to_string(), None),
    ];
    assert_eq!(BrewProvider::formula_desc(&rows, "git"), Some("vcs".to_string()));
    assert_eq!(BrewProvider::formula_desc(&rows, "wget"), None);
    assert_eq!(BrewProvider::formula_desc(&rows, "curl"), None);
}

#[test]
fn test_lowercase_type_accepted() {
    let content = "[Desktop Entry]\nType=application\nName=App\nExec=/usr/bin/app\n";
    let result = DesktopProvider::parse_desktop_content(content, "/test/app.desktop")
        .unwrap()
        .unwrap();
    assert_eq!(result.name, "App");
}

#[test]
fn test_app_dirs_from_env_values() {
    let dirs = app_dirs_from(
        Some("/home/u/.data".to_string()),
        Some("/home/u".to_string()),
        Some("/usr/share:/usr/local/share:".to_string()),
    );
    assert_eq!(
        dirs,
        vec![
            "/home/u/.data/applications",
            "/usr/share/applications",
            "/usr/local/share/applications",
        ]
    );

    let defaulted = app_dirs_from(None, Some("/home/u".to_string()), None);
    assert_eq!(
        defaulted,
        vec![
            "/home/u/.local/share/applications",
            "/usr/share/applications",
            "/usr/local/share/applications",
        ]
    );
}
