use raffi::config::RaffiConfig;
use raffi::engine::Command;
use raffi::engine::QueryEngine;
use raffi::engine::ScriptItem;
use raffi::history::HistoryLog;
use raffi::history::MruMap;
use raffi::mode::AddonSettings;
use raffi::mode::MatchMode;
use raffi::mode::ScriptFilterDef;
use raffi::mode::WebSearchDef;
use raffi::mode::mode_of_query;
use raffi::text::str_chars;

fn settings() -> AddonSettings {
    AddonSettings {
        trigger: "$".to_string(),
        default_currency: "USD".to_string(),
        currencies: vec!["USD".to_string(), "EUR".to_string(), "GBP".to_string()],
        script_filters: vec![ScriptFilterDef {
            name: "Emoji".to_string(),
            command: "emojipick".to_string(),
            args: vec![],
            keyword: "em".to_string(),
            icon: None,
            action: Some("xdotool type {value}".to_string()),
            secondary_action: None,
        }],
        web_searches: vec![WebSearchDef {
            name: "Web".to_string(),
            keyword: "g".to_string(),
            url: "https://example.org/search?q={query}".to_string(),
            icon: None,
        }],
        show_hidden: false,
        history_cap: 50,
    }
}

fn entry(name: &str) -> RaffiConfig {
    RaffiConfig {
        binary: Some(name.to_string()),
        description: Some(name.to_string()),
        ..Default::default()
    }
}

fn engine_with(names: &[&str]) -> QueryEngine {
    let configs: Vec<RaffiConfig> = names.iter().map(|n| entry(n)).collect();
    QueryEngine::new(
        configs,
        settings(),
        str_chars("/home/me"),
        MruMap::new(),
        HistoryLog::new(50),
    )
}

fn chars_to_string(v: &[char]) -> String {
    v.iter().collect()
}

// Exactly one mode is active per query, chosen by the fixed priority.
#[test]
fn mode_priority_is_fixed() {
    let s = settings();
    let m = |q: &str| mode_of_query(&str_chars(q), &s);
    assert_eq!(m("/etc"), MatchMode::FileBrowser);
    assert_eq!(m("~"), MatchMode::FileBrowser);
    assert_eq!(m("~/doc"), MatchMode::FileBrowser);
    assert_eq!(m("em smile"), MatchMode::ScriptFilter);
    assert_eq!(m("em"), MatchMode::ScriptFilter);
    assert_eq!(m("g weather"), MatchMode::WebSearch);
    assert_eq!(m("$"), MatchMode::CurrencyHelp);
    assert_eq!(m("$ "), MatchMode::CurrencyHelp);
    assert_eq!(m("$10 to EUR"), MatchMode::CurrencyConvert);
    assert_eq!(m("$10"), MatchMode::MultiCurrencyConvert);
    assert_eq!(m("2+2"), MatchMode::Calculator);
    assert_eq!(m("firefox"), MatchMode::AppSearch);
    // the caret is no operator here, so such a query falls through
    assert_eq!(m("2^3"), MatchMode::AppSearch);
}

// A result tagged with a generation older than the current one is
// never applied.
#[test]
fn stale_script_result_is_discarded() {
    let mut e = engine_with(&["firefox"]);
    let cmds = e.on_query_changed("em smile", 0);
    let gen1 = match &cmds[0] {
        Command::StartScriptFetch { generation, filter_index, argument } => {
            assert_eq!(*filter_index, 0);
            assert_eq!(argument, "smile");
            *generation
        }
        _ => panic!("expected a script fetch"),
    };
    // the user keeps typing: the generation moves on
    let _ = e.on_query_changed("em smiley", 0);
    let stale = vec![ScriptItem {
        title: "old".to_string(),
        subtitle: None,
        arg: None,
        icon_path: None,
    }];
    assert!(!e.apply_script_result(gen1, stale));
    assert_eq!(e.script_items.len(), 0);
    // the fresh generation is applied
    let cmds2 = e.on_query_changed("em smile", 0);
    let gen3 = match &cmds2[0] {
        Command::StartScriptFetch { generation, .. } => *generation,
        _ => panic!("expected a script fetch"),
    };
    let fresh = vec![ScriptItem {
        title: "grin".to_string(),
        subtitle: None,
        arg: Some(":D".to_string()),
        icon_path: None,
    }];
    assert!(e.apply_script_result(gen3, fresh));
    assert_eq!(e.script_items.len(), 1);
}

// An explicit conversion triggers one fetch; the answer fills the rows
// and the cache answers the repeat without a new fetch.
#[test]
fn currency_fetch_and_cache() {
    let mut e = engine_with(&[]);
    let cmds = e.on_query_changed("$10 to EUR", 100);
    assert_eq!(cmds.len(), 1);
    let gen = match &cmds[0] {
        Command::StartRateFetch { generation, base, targets } => {
            assert_eq!(base, "USD");
            assert_eq!(targets, &vec!["EUR".to_string()]);
            *generation
        }
        _ => panic!("expected a rate fetch"),
    };
    // 1 USD = 0.92 EUR, in millionths
    let rates = vec![(str_chars("EUR"), 920000u64)];
    assert!(e.apply_rate_result(gen, &str_chars("USD"), &rates, 100));
    assert_eq!(e.conv_rows.len(), 1);
    assert_eq!(chars_to_string(&e.conv_rows[0]), "9.20 EUR");
    // within the hour the cache answers at once
    let cmds2 = e.on_query_changed("$10 to EUR", 200);
    assert_eq!(cmds2.len(), 0);
    assert_eq!(e.conv_rows.len(), 1);
    // after the hour the rate is stale and a fetch goes out again
    let cmds3 = e.on_query_changed("$10 to EUR", 100 + 3600);
    assert_eq!(cmds3.len(), 1);
}

// A bare amount expands to every other configured currency.
#[test]
fn bare_amount_expands_to_other_currencies() {
    let mut e = engine_with(&[]);
    let cmds = e.on_query_changed("$10", 0);
    assert_eq!(cmds.len(), 1);
    match &cmds[0] {
        Command::StartRateFetch { base, targets, .. } => {
            assert_eq!(base, "USD");
            assert_eq!(targets, &vec!["EUR".to_string(), "GBP".to_string()]);
        }
        _ => panic!("expected a rate fetch"),
    }
}

// The selection wraps at both ends of the flattened list, and each step
// asks for a proportional scroll.
#[test]
fn selection_wraps_at_both_ends() {
    let mut e = engine_with(&["a", "b", "c"]);
    assert_eq!(e.selection, 0);
    let cmds = e.on_navigate(false);
    assert_eq!(e.selection, 2);
    match &cmds[0] {
        Command::SetScroll { num, den } => {
            assert_eq!(*num, 2);
            assert_eq!(*den, 2);
        }
        _ => panic!("expected a scroll"),
    }
    let _ = e.on_navigate(true);
    assert_eq!(e.selection, 0);
    let _ = e.on_navigate(true);
    let _ = e.on_navigate(true);
    assert_eq!(e.selection, 2);
    let _ = e.on_navigate(true);
    assert_eq!(e.selection, 0);
}

// Submitting a ranked entry launches it, counts it, and closes.
#[test]
fn submit_launches_and_records() {
    let mut e = engine_with(&["alpha", "beta"]);
    let _ = e.on_query_changed("beta", 0);
    let cmds = e.on_submit(false);
    assert_eq!(cmds.len(), 4);
    match &cmds[2] {
        Command::Launch { index } => {
            assert_eq!(chars_to_string(&e.labels[*index]), "beta");
        }
        _ => panic!("expected a launch"),
    }
    match &cmds[3] {
        Command::Close { submitted } => assert!(*submitted),
        _ => panic!("expected a close"),
    }
    assert_eq!(e.closed, Some(true));
    assert_eq!(e.history.len(), 1);
}

// Cancel closes without side effects.
#[test]
fn cancel_closes_without_effects() {
    let mut e = engine_with(&["a"]);
    let cmds = e.on_cancel();
    assert_eq!(cmds.len(), 1);
    match &cmds[0] {
        Command::Close { submitted } => assert!(!*submitted),
        _ => panic!("expected a close"),
    }
    assert_eq!(e.history.len(), 0);
}

// Backward navigation stashes the query and walks older entries; forward
// past the newest restores the stash.
#[test]
fn history_navigation_walks_and_restores() {
    let mut e = engine_with(&["a"]);
    let mut h = HistoryLog::new(10);
    h.submit(&str_chars("first"));
    h.submit(&str_chars("second"));
    e.history = h;
    let _ = e.on_query_changed("draft", 0);
    let _ = e.history_back(0);
    assert_eq!(chars_to_string(&e.query), "second");
    let _ = e.history_back(0);
    assert_eq!(chars_to_string(&e.query), "first");
    // past the oldest nothing happens
    let _ = e.history_back(0);
    assert_eq!(chars_to_string(&e.query), "first");
    let _ = e.history_forward(0);
    assert_eq!(chars_to_string(&e.query), "second");
    let _ = e.history_forward(0);
    assert_eq!(chars_to_string(&e.query), "draft");
}

// The calculator shows its row and submission copies the result.
#[test]
fn calculator_row_is_copyable() {
    let mut e = engine_with(&[]);
    let _ = e.on_query_changed("2+2", 0);
    assert_eq!(e.calc_rows.len(), 1);
    assert_eq!(chars_to_string(&e.calc_rows[0]), "4");
    let cmds = e.on_submit(false);
    match &cmds[0] {
        Command::CopyToClipboard { text } => assert_eq!(text, "4"),
        _ => panic!("expected a copy"),
    }
}

// A directory listing is applied only for the directory still shown.
#[test]
fn dir_listing_applies_only_to_current_dir() {
    let mut e = engine_with(&[]);
    let cmds = e.on_query_changed("/etc/pa", 0);
    assert_eq!(cmds.len(), 1);
    match &cmds[0] {
        Command::ListDir { path } => assert_eq!(path, "/etc/"),
        _ => panic!("expected a listing request"),
    }
    let entries = vec![
        (str_chars("passwd"), false),
        (str_chars("pam.d"), true),
        (str_chars("hosts"), false),
        (str_chars(".hidden"), false),
    ];
    assert!(!e.apply_dir_listing(&str_chars("/usr/"), entries.clone()));
    assert!(e.apply_dir_listing(&str_chars("/etc/"), entries));
    // dirs first, dotfiles hidden, partial filter applied
    let rows: Vec<String> = e.dir_rows.iter().map(|r| r.0.iter().collect()).collect();
    assert_eq!(rows, vec!["pam.d".to_string(), "passwd".to_string()]);
}

// A web search opens the built URL.
#[test]
fn web_search_opens_url() {
    let mut e = engine_with(&[]);
    let _ = e.on_query_changed("g rust lang", 0);
    let cmds = e.on_submit(false);
    match &cmds[0] {
        Command::OpenUrl { url } => {
            assert_eq!(url, "https://example.org/search?q=rust%20lang");
        }
        _ => panic!("expected an opened URL"),
    }
}
