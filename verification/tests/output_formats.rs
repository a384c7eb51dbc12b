use appgrep::app::{AppSource, Application};
use appgrep::output::{
    format_exec, format_json_list, format_json_single, format_names, format_table, format_tsv,
    stats_json, stats_text, Formatter, OutputFormat,
};

fn make_app(name: &str) -> Application {
    Application {
        name: name.to_string(),
        exec_command: format!("/usr/bin/{}", name.to_lowercase()),
        source: AppSource::Desktop,
        location: format!("/usr/share/applications/{}.desktop", name.to_lowercase()),
        icon: Some("icon".to_string()),
        categories: vec!["Utility".to_string()],
        description: Some(format!("{} application", name)),
    }
}

fn make_minimal_app(name: &str) -> Application {
    Application {
        name: name.to_string(),
        exec_command: format!("/usr/bin/{}", name.to_lowercase()),
        source: AppSource::Standalone,
        location: String::new(),
        icon: None,
        categories: Vec::new(),
        description: None,
    }
}

fn make_exec_app(name: &str, exec: &str) -> Application {
    Application {
        name: name.to_string(),
        exec_command: exec.to_string(),
        source: AppSource::Desktop,
        location: String::new(),
        icon: None,
        categories: Vec::new(),
        description: None,
    }
}

fn make_tsv_app(name: &str) -> Application {
    Application {
        name: name.to_string(),
        exec_command: format!("/usr/bin/{}", name.to_lowercase()),
        source: AppSource::Desktop,
        location: String::new(),
        icon: None,
        categories: Vec::new(),
        description: Some(format!("{} app", name)),
    }
}

#[test]
fn test_exec_empty() {
    let apps: Vec<Application> = vec![];
    let output = format_exec(&apps);
    assert_eq!(output, "");
}

#[test]
fn test_exec_single() {
    let apps = vec![make_exec_app("Firefox", "/usr/bin/firefox")];
    let output = format_exec(&apps);
    assert_eq!(output, "/usr/bin/firefox\n");
}

#[test]
fn test_exec_multiple() {
    let apps = vec![
        make_exec_app("Firefox", "/usr/bin/firefox"),
        make_exec_app("GIMP", "/usr/bin/gimp"),
    ];
    let output = format_exec(&apps);
    let lines: Vec<&str> = output.lines().collect();
    assert_eq!(lines.len(), 2);
    assert_eq!(lines[0], "/usr/bin/firefox");
    assert_eq!(lines[1], "/usr/bin/gimp");
}

#[test]
fn test_names_empty() {
    let apps: Vec<Application> = vec![];
    let output = format_names(&apps);
    assert_eq!(output, "");
}

#[test]
fn test_names_single() {
    let apps = vec![make_minimal_app("Firefox")];
    let output = format_names(&apps);
    assert_eq!(output, "Firefox\n");
}

#[test]
fn test_names_multiple() {
    let apps = vec![
        make_minimal_app("Firefox"),
        make_minimal_app("GIMP"),
        make_minimal_app("VLC"),
    ];
    let output = format_names(&apps);
    let lines: Vec<&str> = output.lines().collect();
    assert_eq!(lines.len(), 3);
    assert_eq!(lines[0], "Firefox");
    assert_eq!(lines[1], "GIMP");
    assert_eq!(lines[2], "VLC");
}

#[test]
fn test_tsv_empty() {
    let apps: Vec<Application> = vec![];
    let output = format_tsv(&apps);
    // Should still have header
    assert_eq!(output, "name\texec\tsource\tdescription\n");
}

#[test]
fn test_tsv_single() {
    let apps = vec![make_tsv_app("Firefox")];
    let output = format_tsv(&apps);
    let lines: Vec<&str> = output.lines().collect();
    assert_eq!(lines.len(), 2);
    assert_eq!(lines[0], "name\texec\tsource\tdescription");
    assert!(lines[1].contains("Firefox"));
    assert!(lines[1].contains("\t"));
}

#[test]
fn test_tsv_tab_separation() {
    let apps = vec![make_tsv_app("Firefox")];
    let output = format_tsv(&apps);
    let data_line = output.lines().nth(1).unwrap();
    let fields: Vec<&str> = data_line.split('\t').collect();
    assert_eq!(fields.len(), 4);
    assert_eq!(fields[0], "Firefox");
    assert_eq!(fields[1], "/usr/bin/firefox");
    assert_eq!(fields[2], "desktop");
    assert_eq!(fields[3], "Firefox app");
}

#[test]
fn test_tsv_multiple() {
    let apps = vec![make_tsv_app("Firefox"), make_tsv_app("GIMP"), make_tsv_app("VLC")];
    let output = format_tsv(&apps);
    let lines: Vec<&str> = output.lines().collect();
    assert_eq!(lines.len(), 4); // header + 3 rows
}

#[test]
fn test_format_info_plain() {
    let formatter = Formatter::new(OutputFormat::Table, true);
    let app = make_app("Firefox");
    let output = formatter.format_info(&app);
    assert!(output.contains("Name:        Firefox"));
    assert!(output.contains("Exec:        /usr/bin/firefox"));
    assert!(output.contains("Source:      desktop"));
    assert!(output.contains("Icon:        icon"));
    assert!(output.contains("Categories:  Utility"));
    assert!(output.contains("Description: Firefox application"));
}

#[test]
fn test_format_info_plain_minimal() {
    let formatter = Formatter::new(OutputFormat::Table, true);
    let app = make_minimal_app("mytool");
    let output = formatter.format_info(&app);
    assert!(output.contains("Icon:        -"));
    assert!(output.contains("Categories:  -"));
    assert!(output.contains("Description: -"));
}

#[test]
fn test_format_info_json() {
    let formatter = Formatter::new(OutputFormat::Json, false);
    let app = make_app("Firefox");
    let output = formatter.format_info(&app);
    let parsed: serde_json::Value = serde_json::from_str(output.trim()).unwrap();
    assert_eq!(parsed["name"], "Firefox");
}

#[test]
fn test_format_has_json() {
    let formatter = Formatter::new(OutputFormat::Json, false);
    let app = make_app("Firefox");
    let output = formatter.format_has(&app, true);
    let parsed: serde_json::Value = serde_json::from_str(output.trim()).unwrap();
    assert_eq!(parsed["found"], true);
    assert_eq!(parsed["name"], "Firefox");
}

#[test]
fn test_format_has_silent_non_json() {
    let formatter = Formatter::new(OutputFormat::Table, true);
    let app = make_app("Firefox");
    let output = formatter.format_has(&app, true);
    assert_eq!(output, "");
}

#[test]
fn test_format_has_not_found_json() {
    let formatter = Formatter::new(OutputFormat::Json, false);
    let output = formatter.format_has_not_found("nonexistent");
    let parsed: serde_json::Value = serde_json::from_str(output.trim()).unwrap();
    assert_eq!(parsed["found"], false);
    assert_eq!(parsed["name"], "nonexistent");
}

#[test]
fn test_format_has_not_found_silent_non_json() {
    let formatter = Formatter::new(OutputFormat::Table, true);
    let output = formatter.format_has_not_found("nonexistent");
    assert_eq!(output, "");
}

#[test]
fn test_format_list_each_format() {
    let apps = vec![make_app("Firefox")];

    for format in [
        OutputFormat::Table,
        OutputFormat::Json,
        OutputFormat::Tsv,
        OutputFormat::Names,
        OutputFormat::Exec,
    ] {
        let formatter = Formatter::new(format, true);
        let output = formatter.format_list(&apps);
        assert!(!output.is_empty(), "Format {:?} produced empty output", format);
    }
}

#[test]
fn test_json_list_empty() {
    let apps: Vec<Application> = vec![];
    let output = format_json_list(&apps);
    let parsed: serde_json::Value = serde_json::from_str(output.trim()).unwrap();
    assert!(parsed.is_array());
    assert_eq!(parsed.as_array().unwrap().len(), 0);
}

#[test]
fn test_json_list_single() {
    let apps = vec![make_app("Firefox")];
    let output = format_json_list(&apps);
    let parsed: serde_json::Value = serde_json::from_str(output.trim()).unwrap();
    assert!(parsed.is_array());
    assert_eq!(parsed.as_array().unwrap().len(), 1);
    assert_eq!(parsed[0]["name"], "Firefox");
}

#[test]
fn test_json_list_multiple() {
    let apps = vec![make_app("Firefox"), make_app("GIMP"), make_app("VLC")];
    let output = format_json_list(&apps);
    let parsed: serde_json::Value = serde_json::from_str(output.trim()).unwrap();
    assert_eq!(parsed.as_array().unwrap().len(), 3);
}

#[test]
fn test_json_list_correct_fields() {
    let apps = vec![make_app("Firefox")];
    let output = format_json_list(&apps);
    let parsed: serde_json::Value = serde_json::from_str(output.trim()).unwrap();
    let app = &parsed[0];
    assert!(app.get("name").is_some());
    assert!(app.get("exec_command").is_some());
    assert!(app.get("source").is_some());
    assert!(app.get("location").is_some());
    assert!(app.get("icon").is_some());
    assert!(app.get("categories").is_some());
    assert!(app.get("description").is_some());
}

#[test]
fn test_json_single() {
    let app = make_app("Firefox");
    let output = format_json_single(&app);
    let parsed: serde_json::Value = serde_json::from_str(output.trim()).unwrap();
    assert_eq!(parsed["name"], "Firefox");
    assert_eq!(parsed["source"], "desktop");
}

#[test]
fn test_json_escapes_special_characters() {
    let mut app = make_minimal_app("Quote\"Back\\slash");
    app.description = Some("line1\nline2\ttabbed".to_string());
    let output = format_json_single(&app);
    let parsed: serde_json::Value = serde_json::from_str(output.trim()).unwrap();
    assert_eq!(parsed["name"], "Quote\"Back\\slash");
    assert_eq!(parsed["description"], "line1\nline2\ttabbed");
}

#[test]
fn test_table_empty() {
    let apps: Vec<Application> = vec![];
    let output = format_table(&apps, true);
    // Should still have header
    assert!(output.contains("Name"));
    assert!(output.contains("Exec"));
}

#[test]
fn test_table_contains_app_name() {
    let apps = vec![make_tsv_app("Firefox")];
    let output = format_table(&apps, true);
    assert!(output.contains("Firefox"));
}

#[test]
fn test_table_no_color() {
    let apps = vec![make_tsv_app("Firefox")];
    let output = format_table(&apps, true);
    assert!(output.contains("desktop"));
    // No ANSI escape codes when no_color is true
    assert!(!output.contains("\x1b["));
}

#[test]
fn test_table_with_color() {
    let apps = vec![make_tsv_app("Firefox")];
    let output = format_table(&apps, false);
    assert!(output.contains("Firefox"));
}

#[test]
fn test_table_multiple_sources() {
    let mut a = make_tsv_app("Firefox");
    a.source = AppSource::Desktop;
    let mut b = make_tsv_app("mytool");
    b.source = AppSource::Cargo;
    let mut c = make_tsv_app("curl");
    c.source = AppSource::Dpkg;
    let apps = vec![a, b, c];
    let output = format_table(&apps, true);
    assert!(output.contains("Firefox"));
    assert!(output.contains("mytool"));
    assert!(output.contains("curl"));
}

#[test]
fn test_stats_text_exact() {
    let apps = vec![
        make_minimal_app("one"),
        make_tsv_app("two"),
        make_tsv_app("three"),
    ];
    let line = stats_text(&apps);
    assert_eq!(
        line,
        "Stats: 2 desktop, 0 flatpak, 0 snap, 1 standalone, 0 cargo, 0 npm, 0 dpkg, 0 rpm, 0 pacman, 0 brew — total 3"
    );
}

#[test]
fn test_stats_json_skips_empty_sources() {
    let apps = vec![make_tsv_app("one"), make_minimal_app("two")];
    let output = stats_json(&apps);
    let parsed: serde_json::Value = serde_json::from_str(output.trim()).unwrap();
    assert_eq!(parsed["desktop"], 1);
    assert_eq!(parsed["standalone"], 1);
    assert!(parsed.get("snap").is_none());
}
