//! Rendering catalogs as names, exec commands, TSV, JSON, a table, and
//! the per-source statistics line.

use vstd::prelude::*;
use vstd::string::*;

use crate::app::{source_label_spec, AppSource, AppView, Application};
use crate::text::{join_spec, join_with, lower_of};

verus! {

/// How a catalog is rendered.
#[derive(Debug, Clone, Copy, PartialEq, Eq, Structural)]
pub enum OutputFormat {
    Table,
    Json,
    Tsv,
    Names,
    Exec,
}

/// One name per line.
pub open spec fn names_spec(c: Seq<AppView>) -> Seq<char>
    decreases c.len(),
{
    if c.len() == 0 {
        Seq::empty()
    } else {
        c[0].name + "\n"@ + names_spec(c.drop_first())
    }
}

/// Render one application name per line.
pub fn format_names(apps: &Vec<Application>) -> (r: String)
    ensures
        r@ == names_spec(apps.deep_view()),
{
    let ghost c = apps.deep_view();
    let n = apps.len();
    let mut out = String::new();
    let mut i: usize = 0;
    proof {
        assert(c.skip(0) =~= c);
        assert(out@ + names_spec(c) =~= names_spec(c));
    }
    while i < n
        invariant
            c == apps.deep_view(),
            c.len() == n,
            n == apps.len(),
            0 <= i <= n,
            names_spec(c) == out@ + names_spec(c.skip(i as int)),
        decreases n - i,
    {
        let ghost old_out = out@;
        out.append(apps[i].name.as_str());
        out.append("\n");
        proof {
            assert(c.skip(i as int)[0] == c[i as int]);
            assert(c.skip(i as int).drop_first() =~= c.skip(i + 1));
            assert(old_out + (c[i as int].name + "\n"@ + names_spec(c.skip(i + 1))) =~= out@
                + names_spec(c.skip(i + 1)));
        }
        i += 1;
    }
    proof {
        assert(names_spec(c.skip(n as int)) =~= Seq::<char>::empty());
        assert(out@ + Seq::<char>::empty() =~= out@);
    }
    out
}

/// One exec command per line.
pub open spec fn execs_spec(c: Seq<AppView>) -> Seq<char>
    decreases c.len(),
{
    if c.len() == 0 {
        Seq::empty()
    } else {
        c[0].exec_command + "\n"@ + execs_spec(c.drop_first())
    }
}

/// Render one exec command per line.
pub fn format_exec(apps: &Vec<Application>) -> (r: String)
    ensures
        r@ == execs_spec(apps.deep_view()),
{
    let ghost c = apps.deep_view();
    let n = apps.len();
    let mut out = String::new();
    let mut i: usize = 0;
    proof {
        assert(c.skip(0) =~= c);
        assert(out@ + execs_spec(c) =~= execs_spec(c));
    }
    while i < n
        invariant
            c == apps.deep_view(),
            c.len() == n,
            n == apps.len(),
            0 <= i <= n,
            execs_spec(c) == out@ + execs_spec(c.skip(i as int)),
        decreases n - i,
    {
        let ghost old_out = out@;
        out.append(apps[i].exec_command.as_str());
        out.append("\n");
        proof {
            assert(c.skip(i as int)[0] == c[i as int]);
            assert(c.skip(i as int).drop_first() =~= c.skip(i + 1));
            assert(old_out + (c[i as int].exec_command + "\n"@ + execs_spec(c.skip(i + 1)))
                =~= out@ + execs_spec(c.skip(i + 1)));
        }
        i += 1;
    }
    proof {
        assert(execs_spec(c.skip(n as int)) =~= Seq::<char>::empty());
        assert(out@ + Seq::<char>::empty() =~= out@);
    }
    out
}

/// One tab-separated row per application.
pub open spec fn tsv_row_spec(a: AppView) -> Seq<char> {
    a.name + "\t"@ + a.exec_command + "\t"@ + source_label_spec(a.source) + "\t"@ + (match a
        .description {
        Some(d) => d,
        None => Seq::empty(),
    }) + "\n"@
}

/// The TSV rows of a catalog.
pub open spec fn tsv_rows_spec(c: Seq<AppView>) -> Seq<char>
    decreases c.len(),
{
    if c.len() == 0 {
        Seq::empty()
    } else {
        tsv_row_spec(c[0]) + tsv_rows_spec(c.drop_first())
    }
}

/// The whole TSV document: a header row, then one row per application.
pub open spec fn tsv_spec(c: Seq<AppView>) -> Seq<char> {
    "name\texec\tsource\tdescription\n"@ + tsv_rows_spec(c)
}

/// Render the catalog as tab-separated values with a header row.
pub fn format_tsv(apps: &Vec<Application>) -> (r: String)
    ensures
        r@ == tsv_spec(apps.deep_view()),
{
    let ghost c = apps.deep_view();
    let n = apps.len();
    let mut out = String::from_str("name\texec\tsource\tdescription\n");
    let mut i: usize = 0;
    proof {
        assert(c.skip(0) =~= c);
        assert(out@ + tsv_rows_spec(c) =~= tsv_spec(c));
    }
    while i < n
        invariant
            c == apps.deep_view(),
            c.len() == n,
            n == apps.len(),
            0 <= i <= n,
            tsv_spec(c) == out@ + tsv_rows_spec(c.skip(i as int)),
        decreases n - i,
    {
        let ghost old_out = out@;
        out.append(apps[i].name.as_str());
        out.append("\t");
        out.append(apps[i].exec_command.as_str());
        out.append("\t");
        out.append(apps[i].source.label());
        out.append("\t");
        match &apps[i].description {
            Some(d) => out.append(d.as_str()),
            None => (),
        }
        out.append("\n");
        proof {
            assert(c.skip(i as int)[0] == c[i as int]);
            assert(c.skip(i as int).drop_first() =~= c.skip(i + 1));
            assert(old_out + (tsv_row_spec(c[i as int]) + tsv_rows_spec(c.skip(i + 1))) =~= out@
                + tsv_rows_spec(c.skip(i + 1)));
        }
        i += 1;
    }
    proof {
        assert(tsv_rows_spec(c.skip(n as int)) =~= Seq::<char>::empty());
        assert(out@ + Seq::<char>::empty() =~= out@);
    }
    out
}

/// One hexadecimal digit.
pub open spec fn hex_char(n: int) -> char {
    "0123456789abcdef"@[n]
}

/// One character of a JSON string, escaped as JSON demands: quote,
/// backslash and the common control characters by their two-character
/// escapes, other control characters as `\u00XX`.
pub open spec fn esc_char(c: char) -> Seq<char> {
    if c == '"' {
        "\\\""@
    } else if c == '\\' {
        "\\\\"@
    } else if c == '\n' {
        "\\n"@
    } else if c == '\r' {
        "\\r"@
    } else if c == '\t' {
        "\\t"@
    } else if c as u32 == 0x08 {
        "\\b"@
    } else if c as u32 == 0x0c {
        "\\f"@
    } else if (c as u32) < 0x20 {
        "\\u00"@ + seq![hex_char(c as u32 as int / 16), hex_char(c as u32 as int % 16)]
    } else {
        seq![c]
    }
}

/// A whole string escaped for JSON.
pub open spec fn json_escape(s: Seq<char>) -> Seq<char>
    decreases s.len(),
{
    if s.len() == 0 {
        Seq::empty()
    } else {
        esc_char(s[0]) + json_escape(s.drop_first())
    }
}

/// A JSON string literal: the escaped text between double quotes.
pub open spec fn json_str(v: Seq<char>) -> Seq<char> {
    "\""@ + json_escape(v) + "\""@
}

fn hex_digit(d: u32) -> (c: char)
    requires
        d < 16,
    ensures
        c == hex_char(d as int),
{
    proof {
        reveal_strlit("0123456789abcdef");
    }
    "0123456789abcdef".get_char(d as usize)
}

/// Escape a string's characters for JSON.
fn escape_json(v: &str) -> (r: String)
    ensures
        r@ == json_escape(v@),
{
    let n = v.unicode_len();
    let mut out = String::new();
    let mut i: usize = 0;
    proof {
        assert(v@.skip(0) =~= v@);
        assert(out@ + json_escape(v@) =~= json_escape(v@));
    }
    while i < n
        invariant
            n == v@.len(),
            0 <= i <= n,
            json_escape(v@) == out@ + json_escape(v@.skip(i as int)),
        decreases n - i,
    {
        let ghost old_out = out@;
        let c = v.get_char(i);
        if c == '"' {
            out.append("\\\"");
        } else if c == '\\' {
            out.append("\\\\");
        } else if c == '\n' {
            out.append("\\n");
        } else if c == '\r' {
            out.append("\\r");
        } else if c == '\t' {
            out.append("\\t");
        } else if c as u32 == 0x08 {
            out.append("\\b");
        } else if c as u32 == 0x0c {
            out.append("\\f");
        } else if (c as u32) < 0x20 {
            out.append("\\u00");
            let u = c as u32;
            crate::text::push_char(&mut out, hex_digit(u / 16));
            crate::text::push_char(&mut out, hex_digit(u % 16));
            proof {
                assert(out@ =~= old_out + ("\\u00"@ + seq![
                    hex_char(c as u32 as int / 16),
                    hex_char(c as u32 as int % 16),
                ]));
            }
        } else {
            crate::text::push_char(&mut out, c);
            proof {
                assert(out@ =~= old_out + seq![c]);
            }
        }
        proof {
            assert(v@.skip(i as int)[0] == v@[i as int]);
            assert(v@.skip(i as int).drop_first() =~= v@.skip(i + 1));
            assert(old_out + (esc_char(v@[i as int]) + json_escape(v@.skip(i + 1))) =~= out@
                + json_escape(v@.skip(i + 1)));
        }
        i += 1;
    }
    proof {
        assert(json_escape(v@.skip(n as int)) =~= Seq::<char>::empty());
        assert(out@ + Seq::<char>::empty() =~= out@);
    }
    out
}

/// Render a JSON string literal.
fn json_string(v: &str) -> (r: String)
    ensures
        r@ == json_str(v@),
{
    let mut out = String::from_str("\"");
    let e = escape_json(v);
    out.append(e.as_str());
    out.append("\"");
    out
}

/// An optional string as JSON: a string literal or `null`.
pub open spec fn json_opt(v: Option<Seq<char>>) -> Seq<char> {
    match v {
        Some(t) => json_str(t),
        None => "null"@,
    }
}

/// A list of strings as a JSON array of string literals.
pub open spec fn json_str_items(tags: Seq<Seq<char>>) -> Seq<char>
    decreases tags.len(),
{
    if tags.len() == 0 {
        Seq::empty()
    } else if tags.len() == 1 {
        json_str(tags[0])
    } else {
        json_str(tags[0]) + ","@ + json_str_items(tags.drop_first())
    }
}

/// A JSON array of string literals.
pub open spec fn json_str_array(tags: Seq<Seq<char>>) -> Seq<char> {
    "["@ + json_str_items(tags) + "]"@
}

/// Render a JSON array of string literals.
fn json_array(tags: &Vec<String>) -> (r: String)
    ensures
        r@ == json_str_array(tags.deep_view()),
{
    let ghost gt = tags.deep_view();
    let mut out = String::from_str("[");
    let n = tags.len();
    let mut i: usize = 0;
    while i < n
        invariant
            gt == tags.deep_view(),
            gt.len() == n,
            n == tags.len(),
            0 <= i <= n,
            i == 0 ==> out@ == "["@,
            i > 0 ==> out@ == "["@ + json_str_items(gt.take(i as int)),
        decreases n - i,
    {
        let ghost old_out = out@;
        if i > 0 {
            out.append(",");
        }
        let js = json_string(tags[i].as_str());
        out.append(js.as_str());
        proof {
            lemma_json_items_take(gt, i as int);
            if i == 0 {
                assert(json_str_items(gt.take(1)) =~= json_str(gt[0])) by {
                    assert(gt.take(1).len() == 1);
                    assert(gt.take(1)[0] == gt[0]);
                }
                assert(out@ =~= "["@ + json_str_items(gt.take(1)));
            } else {
                assert(out@ =~= "["@ + (json_str_items(gt.take(i as int)) + ","@ + json_str(
                    gt[i as int],
                )));
            }
        }
        i += 1;
    }
    out.append("]");
    proof {
        if n == 0 {
            assert(json_str_items(gt) =~= Seq::<char>::empty());
            assert(out@ =~= json_str_array(gt));
        } else {
            assert(gt.take(n as int) =~= gt);
            assert(out@ =~= json_str_array(gt));
        }
    }
    out
}

/// Appending one more string to a non-empty item list appends a comma and
/// its literal.
proof fn lemma_json_items_take(tags: Seq<Seq<char>>, i: int)
    requires
        0 <= i < tags.len(),
    ensures
        i > 0 ==> json_str_items(tags.take(i + 1)) == json_str_items(tags.take(i)) + ","@
            + json_str(tags[i]),
    decreases i,
{
    if i > 0 {
        lemma_json_items_take(tags.drop_first(), i - 1);
        assert(tags.take(i + 1).drop_first() =~= tags.drop_first().take(i));
        assert(tags.take(i).drop_first() =~= tags.drop_first().take(i - 1));
        assert(tags.take(i + 1)[0] == tags[0]);
        assert(tags.take(i)[0] == tags[0]);
        assert(tags.drop_first()[i - 1] == tags[i]);
        if i == 1 {
            assert(tags.take(2).len() == 2);
            assert(tags.drop_first().take(1).len() == 1);
            assert(tags.drop_first().take(1)[0] == tags[1]);
            assert(json_str_items(tags.drop_first().take(1)) == json_str(tags[1]));
            assert(json_str_items(tags.take(2)) =~= json_str(tags[0]) + ","@ + json_str(tags[1]));
            assert(tags.take(1).len() == 1);
            assert(tags.take(1)[0] == tags[0]);
            assert(json_str_items(tags.take(1)) =~= json_str(tags[0]));
        } else {
            assert(json_str(tags[0]) + ","@ + (json_str_items(tags.drop_first().take(i - 1))
                + ","@ + json_str(tags[i])) =~= (json_str(tags[0]) + ","@ + json_str_items(
                tags.drop_first().take(i - 1),
            )) + ","@ + json_str(tags[i]));
        }
    }
}

/// One application as a JSON object, fields in declaration order.
pub open spec fn json_app_spec(a: AppView) -> Seq<char> {
    "{\"name\":"@ + json_str(a.name) + ",\"exec_command\":"@ + json_str(a.exec_command)
        + ",\"source\":"@ + json_str(source_label_spec(a.source)) + ",\"location\":"@ + json_str(
        a.location,
    ) + ",\"icon\":"@ + json_opt(a.icon) + ",\"categories\":"@ + json_str_array(a.categories)
        + ",\"description\":"@ + json_opt(a.description) + "}"@
}

/// Render one application as a JSON object.
fn json_app(app: &Application) -> (r: String)
    ensures
        r@ == json_app_spec(app@),
{
    let mut out = String::from_str("{\"name\":");
    let s1 = json_string(app.name.as_str());
    out.append(s1.as_str());
    out.append(",\"exec_command\":");
    let s2 = json_string(app.exec_command.as_str());
    out.append(s2.as_str());
    out.append(",\"source\":");
    let s3 = json_string(app.source.label());
    out.append(s3.as_str());
    out.append(",\"location\":");
    let s4 = json_string(app.location.as_str());
    out.append(s4.as_str());
    out.append(",\"icon\":");
    match &app.icon {
        Some(ic) => {
            let s5 = json_string(ic.as_str());
            out.append(s5.as_str());
        },
        None => out.append("null"),
    }
    out.append(",\"categories\":");
    let s6 = json_array(&app.categories);
    out.append(s6.as_str());
    out.append(",\"description\":");
    match &app.description {
        Some(d) => {
            let s7 = json_string(d.as_str());
            out.append(s7.as_str());
        },
        None => out.append("null"),
    }
    out.append("}");
    out
}

/// The comma-separated JSON objects of a catalog.
pub open spec fn json_app_items(c: Seq<AppView>) -> Seq<char>
    decreases c.len(),
{
    if c.len() == 0 {
        Seq::empty()
    } else if c.len() == 1 {
        json_app_spec(c[0])
    } else {
        json_app_spec(c[0]) + ","@ + json_app_items(c.drop_first())
    }
}

/// A whole catalog as a JSON array, with a final newline.
pub open spec fn json_list_spec(c: Seq<AppView>) -> Seq<char> {
    "["@ + json_app_items(c) + "]\n"@
}

proof fn lemma_json_app_items_take(c: Seq<AppView>, i: int)
    requires
        0 <= i < c.len(),
    ensures
        i > 0 ==> json_app_items(c.take(i + 1)) == json_app_items(c.take(i)) + ","@
            + json_app_spec(c[i]),
    decreases i,
{
    if i > 0 {
        lemma_json_app_items_take(c.drop_first(), i - 1);
        assert(c.take(i + 1).drop_first() =~= c.drop_first().take(i));
        assert(c.take(i).drop_first() =~= c.drop_first().take(i - 1));
        assert(c.take(i + 1)[0] == c[0]);
        assert(c.take(i)[0] == c[0]);
        assert(c.drop_first()[i - 1] == c[i]);
        if i == 1 {
            assert(c.take(2).len() == 2);
            assert(c.drop_first().take(1).len() == 1);
            assert(c.drop_first().take(1)[0] == c[1]);
            assert(json_app_items(c.drop_first().take(1)) == json_app_spec(c[1]));
            assert(json_app_items(c.take(2)) =~= json_app_spec(c[0]) + ","@ + json_app_spec(c[1]));
            assert(c.take(1).len() == 1);
            assert(c.take(1)[0] == c[0]);
            assert(json_app_items(c.take(1)) =~= json_app_spec(c[0]));
        } else {
            assert(json_app_spec(c[0]) + ","@ + (json_app_items(c.drop_first().take(i - 1)) + ","@
                + json_app_spec(c[i])) =~= (json_app_spec(c[0]) + ","@ + json_app_items(
                c.drop_first().take(i - 1),
            )) + ","@ + json_app_spec(c[i]));
        }
    }
}

/// Render a whole catalog as a JSON array.
pub fn format_json_list(apps: &Vec<Application>) -> (r: String)
    ensures
        r@ == json_list_spec(apps.deep_view()),
{
    let ghost c = apps.deep_view();
    let mut out = String::from_str("[");
    let n = apps.len();
    let mut i: usize = 0;
    while i < n
        invariant
            c == apps.deep_view(),
            c.len() == n,
            n == apps.len(),
            0 <= i <= n,
            i == 0 ==> out@ == "["@,
            i > 0 ==> out@ == "["@ + json_app_items(c.take(i as int)),
        decreases n - i,
    {
        if i > 0 {
            out.append(",");
        }
        let js = json_app(&apps[i]);
        out.append(js.as_str());
        proof {
            lemma_json_app_items_take(c, i as int);
            if i == 0 {
                assert(json_app_items(c.take(1)) =~= json_app_spec(c[0])) by {
                    assert(c.take(1).len() == 1);
                    assert(c.take(1)[0] == c[0]);
                }
                assert(out@ =~= "["@ + json_app_items(c.take(1)));
            } else {
                assert(out@ =~= "["@ + (json_app_items(c.take(i as int)) + ","@ + json_app_spec(
                    c[i as int],
                )));
            }
        }
        i += 1;
    }
    out.append("]\n");
    proof {
        if n == 0 {
            assert(json_app_items(c) =~= Seq::<char>::empty());
        } else {
            assert(c.take(n as int) =~= c);
        }
        assert(out@ =~= json_list_spec(c));
    }
    out
}

/// One application as a JSON object with a final newline.
pub open spec fn json_single_spec(a: AppView) -> Seq<char> {
    json_app_spec(a) + "\n"@
}

/// Render one application as a JSON object on its own line.
pub fn format_json_single(app: &Application) -> (r: String)
    ensures
        r@ == json_single_spec(app@),
{
    let mut out = json_app(app);
    out.append("\n");
    out
}

/// Relies on comfy_table's `Table`: a dynamically arranged table with a
/// header row renders to non-empty text.
#[verifier::external_body]
fn render_table(header: Vec<String>, rows: Vec<Vec<String>>) -> (r: String)
    ensures
        r@.len() > 0,
{
    let mut table = comfy_table::Table::new();
    table.set_content_arrangement(comfy_table::ContentArrangement::Dynamic);
    table.set_header(header);
    for row in rows {
        table.add_row(row);
    }
    format!("{}\n", table)
}

/// Text wrapped in an ANSI foreground color escape.
pub open spec fn ansi_spec(code: Seq<char>, s: Seq<char>) -> Seq<char> {
    "\u{1b}["@ + code + "m"@ + s + "\u{1b}[0m"@
}

/// Wrap text in an ANSI foreground color escape.
fn ansi_wrap(code: &str, s: &str) -> (r: String)
    ensures
        r@ == ansi_spec(code@, s@),
{
    let mut out = String::from_str("\u{1b}[");
    out.append(code);
    out.append("m");
    out.append(s);
    out.append("\u{1b}[0m");
    out
}

/// The ANSI color code used for each source's table cell.
pub open spec fn source_color_spec(s: AppSource) -> Seq<char> {
    match s {
        AppSource::Desktop => "32"@,
        AppSource::Flatpak => "34"@,
        AppSource::Snap => "33"@,
        AppSource::Standalone => "36"@,
        AppSource::Cargo => "35"@,
        AppSource::Npm => "31"@,
        AppSource::Dpkg => "37"@,
        AppSource::Rpm => "91"@,
        AppSource::Pacman => "96"@,
        AppSource::Brew => "93"@,
    }
}

fn source_color(s: &AppSource) -> (r: &'static str)
    ensures
        r@ == source_color_spec(*s),
{
    match s {
        AppSource::Desktop => "32",
        AppSource::Flatpak => "34",
        AppSource::Snap => "33",
        AppSource::Standalone => "36",
        AppSource::Cargo => "35",
        AppSource::Npm => "31",
        AppSource::Dpkg => "37",
        AppSource::Rpm => "91",
        AppSource::Pacman => "96",
        AppSource::Brew => "93",
    }
}

/// The source cell of a table row: the label, colored unless colors are
/// off.
pub open spec fn source_cell_spec(s: AppSource, no_color: bool) -> Seq<char> {
    if no_color {
        source_label_spec(s)
    } else {
        ansi_spec(source_color_spec(s), source_label_spec(s))
    }
}

/// Render the catalog as a bordered table with Name, Exec, Source and
/// Description columns, the source colored by kind unless colors are off.
/// The layout itself comes from comfy_table; only non-emptiness is
/// promised of it.
pub fn format_table(apps: &Vec<Application>, no_color: bool) -> (r: String)
    ensures
        r@.len() > 0,
{
    let header = vec![
        String::from_str("Name"),
        String::from_str("Exec"),
        String::from_str("Source"),
        String::from_str("Description"),
    ];
    let mut rows: Vec<Vec<String>> = Vec::new();
    let n = apps.len();
    let mut i: usize = 0;
    while i < n
        invariant
            n == apps.len(),
            0 <= i <= n,
        decreases n - i,
    {
        let source_cell = if no_color {
            String::from_str(apps[i].source.label())
        } else {
            ansi_wrap(source_color(&apps[i].source), apps[i].source.label())
        };
        let desc = match &apps[i].description {
            Some(d) => d.clone(),
            None => String::new(),
        };
        let row = vec![
            apps[i].name.clone(),
            apps[i].exec_command.clone(),
            source_cell,
            desc,
        ];
        rows.push(row);
        i += 1;
    }
    render_table(header, rows)
}

/// The fixed-width detail block that describes one application, absent
/// optional fields shown as `-`.
pub open spec fn info_spec(a: AppView) -> Seq<char> {
    "Name:        "@ + a.name + "\nExec:        "@ + a.exec_command + "\nSource:      "@
        + source_label_spec(a.source) + "\nLocation:    "@ + a.location + "\nIcon:        "@ + (
    match a.icon {
        Some(ic) => ic,
        None => "-"@,
    }) + "\nCategories:  "@ + (if a.categories.len() == 0 {
        "-"@
    } else {
        join_spec(a.categories, ", "@)
    }) + "\nDescription: "@ + (match a.description {
        Some(d) => d,
        None => "-"@,
    }) + "\n"@
}

/// Render the detail block of one application.
pub fn format_info_text(app: &Application) -> (r: String)
    ensures
        r@ == info_spec(app@),
{
    let mut out = String::from_str("Name:        ");
    out.append(app.name.as_str());
    out.append("\nExec:        ");
    out.append(app.exec_command.as_str());
    out.append("\nSource:      ");
    out.append(app.source.label());
    out.append("\nLocation:    ");
    out.append(app.location.as_str());
    out.append("\nIcon:        ");
    match &app.icon {
        Some(ic) => out.append(ic.as_str()),
        None => out.append("-"),
    }
    out.append("\nCategories:  ");
    if app.categories.len() == 0 {
        out.append("-");
        proof {
            assert(app.categories.deep_view().len() == 0);
        }
    } else {
        let joined = join_with(&app.categories, ", ");
        out.append(joined.as_str());
    }
    out.append("\nDescription: ");
    match &app.description {
        Some(d) => out.append(d.as_str()),
        None => out.append("-"),
    }
    out.append("\n");
    out
}

/// The `has` answer as JSON: whether the application was found, its name,
/// and its source.
pub open spec fn has_json_spec(a: AppView, found: bool) -> Seq<char> {
    "{\"found\":"@ + (if found {
        "true"@
    } else {
        "false"@
    }) + ",\"name\":"@ + json_str(a.name) + ",\"source\":"@ + json_str(source_label_spec(a.source))
        + "}\n"@
}

/// The `has` answer as JSON when nothing was found under the name.
pub open spec fn has_not_found_json_spec(name: Seq<char>) -> Seq<char> {
    "{\"found\":false,\"name\":"@ + json_str(name) + "}\n"@
}

/// Renders catalogs and single applications in the chosen format.
pub struct Formatter {
    pub format: OutputFormat,
    pub no_color: bool,
}

impl Formatter {
    /// A formatter for the chosen format, optionally without colors.
    pub fn new(format: OutputFormat, no_color: bool) -> (r: Self)
        ensures
            r.format == format,
            r.no_color == no_color,
    {
        Formatter { format, no_color }
    }

    /// Render a whole catalog in this formatter's format.
    pub fn format_list(&self, apps: &Vec<Application>) -> (r: String)
        ensures
            match self.format {
                OutputFormat::Table => r@.len() > 0,
                OutputFormat::Json => r@ == json_list_spec(apps.deep_view()),
                OutputFormat::Tsv => r@ == tsv_spec(apps.deep_view()),
                OutputFormat::Names => r@ == names_spec(apps.deep_view()),
                OutputFormat::Exec => r@ == execs_spec(apps.deep_view()),
            },
    {
        match self.format {
            OutputFormat::Table => format_table(apps, self.no_color),
            OutputFormat::Json => format_json_list(apps),
            OutputFormat::Tsv => format_tsv(apps),
            OutputFormat::Names => format_names(apps),
            OutputFormat::Exec => format_exec(apps),
        }
    }

    /// Render one application's details: JSON when asked for, the plain
    /// detail block otherwise.
    pub fn format_info(&self, app: &Application) -> (r: String)
        ensures
            self.format == OutputFormat::Json ==> r@ == json_single_spec(app@),
            self.format != OutputFormat::Json ==> r@ == info_spec(app@),
    {
        match self.format {
            OutputFormat::Json => format_json_single(app),
            _ => format_info_text(app),
        }
    }

    /// The `has` answer: a JSON object when asked for, otherwise nothing,
    /// the exit code alone carrying the result.
    pub fn format_has(&self, app: &Application, found: bool) -> (r: String)
        ensures
            self.format == OutputFormat::Json ==> r@ == has_json_spec(app@, found),
            self.format != OutputFormat::Json ==> r@ == Seq::<char>::empty(),
    {
        if matches!(self.format, OutputFormat::Json) {
            let mut out = String::from_str("{\"found\":");
            if found {
                out.append("true");
            } else {
                out.append("false");
            }
            out.append(",\"name\":");
            let s1 = json_string(app.name.as_str());
            out.append(s1.as_str());
            out.append(",\"source\":");
            let s2 = json_string(app.source.label());
            out.append(s2.as_str());
            out.append("}\n");
            out
        } else {
            String::new()
        }
    }

    /// The `has` answer when nothing was found under the name.
    pub fn format_has_not_found(&self, name: &str) -> (r: String)
        ensures
            self.format == OutputFormat::Json ==> r@ == has_not_found_json_spec(name@),
            self.format != OutputFormat::Json ==> r@ == Seq::<char>::empty(),
    {
        if matches!(self.format, OutputFormat::Json) {
            let mut out = String::from_str("{\"found\":false,\"name\":");
            let s1 = json_string(name);
            out.append(s1.as_str());
            out.append("}\n");
            out
        } else {
            String::new()
        }
    }
}

/// How many catalog entries a source contributed.
pub open spec fn count_src(c: Seq<AppView>, s: AppSource) -> int
    decreases c.len(),
{
    if c.len() == 0 {
        0
    } else {
        (if c[0].source == s {
            1int
        } else {
            0int
        }) + count_src(c.drop_first(), s)
    }
}

proof fn lemma_count_src_bound(c: Seq<AppView>, s: AppSource)
    ensures
        0 <= count_src(c, s) <= c.len(),
    decreases c.len(),
{
    if c.len() > 0 {
        lemma_count_src_bound(c.drop_first(), s);
    }
}

proof fn lemma_count_src_take(c: Seq<AppView>, s: AppSource, i: int)
    requires
        0 <= i < c.len(),
    ensures
        count_src(c.take(i + 1), s) == count_src(c.take(i), s) + if c[i].source == s {
            1int
        } else {
            0int
        },
    decreases i,
{
    if i == 0 {
        assert(c.take(1).len() == 1);
        assert(c.take(1)[0] == c[0]);
        assert(c.take(1).drop_first() =~= c.take(0));
        assert(c.take(0).len() == 0);
    } else {
        lemma_count_src_take(c.drop_first(), s, i - 1);
        assert(c.take(i + 1).drop_first() =~= c.drop_first().take(i));
        assert(c.take(i).drop_first() =~= c.drop_first().take(i - 1));
        assert(c.take(i + 1)[0] == c[0]);
        assert(c.take(i)[0] == c[0]);
        assert(c.drop_first()[i - 1] == c[i]);
    }
}

/// Count the catalog entries a source contributed.
pub fn count_source(apps: &Vec<Application>, s: AppSource) -> (n: usize)
    ensures
        n as int == count_src(apps.deep_view(), s),
{
    let ghost c = apps.deep_view();
    let total = apps.len();
    let mut count: usize = 0;
    let mut i: usize = 0;
    proof {
        assert(c.take(0).len() == 0);
    }
    while i < total
        invariant
            c == apps.deep_view(),
            c.len() == total,
            total == apps.len(),
            0 <= i <= total,
            count <= i,
            count as int == count_src(c.take(i as int), s),
        decreases total - i,
    {
        proof {
            lemma_count_src_take(c, s, i as int);
        }
        if apps[i].source == s {
            count += 1;
        }
        i += 1;
    }
    proof {
        assert(c.take(total as int) =~= c);
    }
    count
}

/// One decimal digit.
pub open spec fn dec_digit(d: int) -> char {
    "0123456789"@[d]
}

/// The decimal rendering of a number, most significant digit first.
pub open spec fn dec_spec(n: nat) -> Seq<char>
    decreases n,
{
    if n < 10 {
        seq![dec_digit(n as int)]
    } else {
        dec_spec(n / 10) + seq![dec_digit((n % 10) as int)]
    }
}

/// Render a number in decimal.
pub fn usize_to_string(n: usize) -> (r: String)
    ensures
        r@ == dec_spec(n as nat),
    decreases n,
{
    proof {
        reveal_strlit("0123456789");
    }
    if n < 10 {
        let mut s = String::new();
        crate::text::push_char(&mut s, "0123456789".get_char(n));
        proof {
            assert(s@ =~= seq![dec_digit(n as int)]);
        }
        s
    } else {
        let mut s = usize_to_string(n / 10);
        crate::text::push_char(&mut s, "0123456789".get_char(n % 10));
        proof {
            assert(s@ =~= dec_spec((n / 10) as nat) + seq![dec_digit((n % 10) as int)]);
        }
        s
    }
}

/// The `count label` piece of the statistics line for one source.
pub open spec fn stats_part(c: Seq<AppView>, s: AppSource) -> Seq<char> {
    dec_spec(count_src(c, s) as nat) + " "@ + source_label_spec(s)
}

/// The statistics line: the per-source counts in priority order, and the
/// total number of entries.
pub open spec fn stats_text_spec(c: Seq<AppView>) -> Seq<char> {
    "Stats: "@ + stats_part(c, AppSource::Desktop) + ", "@ + stats_part(c, AppSource::Flatpak)
        + ", "@ + stats_part(c, AppSource::Snap) + ", "@ + stats_part(c, AppSource::Standalone)
        + ", "@ + stats_part(c, AppSource::Cargo) + ", "@ + stats_part(c, AppSource::Npm) + ", "@
        + stats_part(c, AppSource::Dpkg) + ", "@ + stats_part(c, AppSource::Rpm) + ", "@
        + stats_part(c, AppSource::Pacman) + ", "@ + stats_part(c, AppSource::Brew)
        + " — total "@ + dec_spec(c.len())
}

/// Render the `count label` piece of the statistics line for one source.
fn stats_part_exec(apps: &Vec<Application>, s: AppSource) -> (r: String)
    ensures
        r@ == stats_part(apps.deep_view(), s),
{
    proof {
        lemma_count_src_bound(apps.deep_view(), s);
    }
    let cnt = count_source(apps, s);
    let mut out = usize_to_string(cnt);
    out.append(" ");
    out.append(s.label());
    out
}

/// Render the per-source statistics line of a catalog.
pub fn stats_text(apps: &Vec<Application>) -> (r: String)
    ensures
        r@ == stats_text_spec(apps.deep_view()),
{
    let mut out = String::from_str("Stats: ");
    let p0 = stats_part_exec(apps, AppSource::Desktop);
    out.append(p0.as_str());
    out.append(", ");
    let p1 = stats_part_exec(apps, AppSource::Flatpak);
    out.append(p1.as_str());
    out.append(", ");
    let p2 = stats_part_exec(apps, AppSource::Snap);
    out.append(p2.as_str());
    out.append(", ");
    let p3 = stats_part_exec(apps, AppSource::Standalone);
    out.append(p3.as_str());
    out.append(", ");
    let p4 = stats_part_exec(apps, AppSource::Cargo);
    out.append(p4.as_str());
    out.append(", ");
    let p5 = stats_part_exec(apps, AppSource::Npm);
    out.append(p5.as_str());
    out.append(", ");
    let p6 = stats_part_exec(apps, AppSource::Dpkg);
    out.append(p6.as_str());
    out.append(", ");
    let p7 = stats_part_exec(apps, AppSource::Rpm);
    out.append(p7.as_str());
    out.append(", ");
    let p8 = stats_part_exec(apps, AppSource::Pacman);
    out.append(p8.as_str());
    out.append(", ");
    let p9 = stats_part_exec(apps, AppSource::Brew);
    out.append(p9.as_str());
    out.append(" — total ");
    let total = usize_to_string(apps.len());
    out.append(total.as_str());
    out
}

/// The sources in their priority order.
pub open spec fn source_order() -> Seq<AppSource> {
    seq![
        AppSource::Desktop,
        AppSource::Flatpak,
        AppSource::Snap,
        AppSource::Standalone,
        AppSource::Cargo,
        AppSource::Npm,
        AppSource::Dpkg,
        AppSource::Rpm,
        AppSource::Pacman,
        AppSource::Brew,
    ]
}

fn source_list() -> (r: Vec<AppSource>)
    ensures
        r.len() == 10,
        forall|k: int| 0 <= k < 10 ==> r@[k] == source_order()[k],
{
    let r = vec![
        AppSource::Desktop,
        AppSource::Flatpak,
        AppSource::Snap,
        AppSource::Standalone,
        AppSource::Cargo,
        AppSource::Npm,
        AppSource::Dpkg,
        AppSource::Rpm,
        AppSource::Pacman,
        AppSource::Brew,
    ];
    proof {
        assert(forall|k: int| 0 <= k < 10 ==> r@[k] == #[trigger] source_order()[k]);
    }
    r
}

/// The `"label":count` pieces of the statistics object, for the sources
/// at or after `i` that contributed at least one entry.
pub open spec fn stats_json_items(c: Seq<AppView>, i: int) -> Seq<Seq<char>>
    decreases 10 - i,
{
    if !(0 <= i < 10) {
        Seq::empty()
    } else {
        let s = source_order()[i];
        (if count_src(c, s) > 0 {
            seq![json_str(source_label_spec(s)) + ":"@ + dec_spec(count_src(c, s) as nat)]
        } else {
            Seq::<Seq<char>>::empty()
        }) + stats_json_items(c, i + 1)
    }
}

/// The statistics as a JSON object: one `"label": count` member per
/// source that contributed at least one entry, in priority order.
pub open spec fn stats_json_spec(c: Seq<AppView>) -> Seq<char> {
    "{"@ + join_spec(stats_json_items(c, 0), ","@) + "}\n"@
}

/// Render the per-source statistics of a catalog as JSON.
pub fn stats_json(apps: &Vec<Application>) -> (r: String)
    ensures
        r@ == stats_json_spec(apps.deep_view()),
{
    let ghost c = apps.deep_view();
    let sources = source_list();
    let mut items: Vec<String> = Vec::new();
    let mut i: usize = 0;
    proof {
        assert(items.deep_view() + stats_json_items(c, 0) =~= stats_json_items(c, 0));
    }
    while i < 10
        invariant
            c == apps.deep_view(),
            sources.len() == 10,
            forall|k: int| 0 <= k < 10 ==> sources@[k] == source_order()[k],
            0 <= i <= 10,
            stats_json_items(c, 0) == items.deep_view() + stats_json_items(c, i as int),
        decreases 10 - i,
    {
        let ghost old_dv = items.deep_view();
        proof {
            lemma_count_src_bound(c, sources@[i as int]);
        }
        let cnt = count_source(apps, sources[i]);
        if cnt > 0 {
            let mut item = json_string(sources[i].label());
            item.append(":");
            let num = usize_to_string(cnt);
            item.append(num.as_str());
            items.push(item);
            proof {
                let s = source_order()[i as int];
                assert(items.deep_view() =~= old_dv.push(
                    json_str(source_label_spec(s)) + ":"@ + dec_spec(count_src(c, s) as nat),
                ));
                assert(old_dv + (seq![
                    json_str(source_label_spec(s)) + ":"@ + dec_spec(count_src(c, s) as nat),
                ] + stats_json_items(c, i + 1)) =~= items.deep_view() + stats_json_items(
                    c,
                    i + 1,
                ));
            }
        } else {
            proof {
                assert(old_dv + (Seq::<Seq<char>>::empty() + stats_json_items(c, i + 1))
                    =~= old_dv + stats_json_items(c, i + 1));
            }
        }
        i += 1;
    }
    let mut out = String::from_str("{");
    let joined = join_with(&items, ",");
    out.append(joined.as_str());
    out.append("}\n");
    proof {
        assert(items.deep_view() + stats_json_items(c, 10) =~= items.deep_view());
        assert(out@ =~= stats_json_spec(c));
    }
    out
}

} // verus!
