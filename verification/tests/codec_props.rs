use raffi::calc::Rat;
use raffi::calc::calc_eval;
use raffi::calc::calc_row;
use raffi::currency::Amount;
use raffi::currency::amount_tok_exec;
use raffi::currency::convert_micro;
use raffi::currency::parse_bare_exec;
use raffi::currency::parse_explicit_exec;
use raffi::fuzzy::rank;
use raffi::fuzzy::score;
use raffi::history::HistoryLog;
use raffi::history::MruMap;
use raffi::history::mru_from_entries;
use raffi::persist::hist_from_lines;
use raffi::persist::hist_to_lines;
use raffi::persist::mru_from_lines;
use raffi::persist::mru_to_lines;
use raffi::text::str_chars;

fn s(v: &[char]) -> String {
    v.iter().collect()
}

// "2+2" evaluates to 4; "1/0" has no finite value; "sqrt(16)" is 4.
#[test]
fn calculator_scenarios() {
    assert_eq!(s(&calc_row(&str_chars("2+2")).unwrap()), "4");
    assert!(calc_row(&str_chars("1/0")).is_none());
    assert_eq!(s(&calc_row(&str_chars("sqrt(16)")).unwrap()), "4");
}

#[test]
fn calculator_handles_precedence_and_fractions() {
    assert_eq!(s(&calc_row(&str_chars("2+3*4")).unwrap()), "14");
    assert_eq!(s(&calc_row(&str_chars("(2+3)*4")).unwrap()), "20");
    assert_eq!(s(&calc_row(&str_chars("3/2")).unwrap()), "1.5");
    assert_eq!(s(&calc_row(&str_chars("-1.5 + 0.25")).unwrap()), "-1.25");
    assert_eq!(s(&calc_row(&str_chars("abs(-3)")).unwrap()), "3");
    assert_eq!(s(&calc_row(&str_chars("floor(3.7)")).unwrap()), "3");
    assert_eq!(s(&calc_row(&str_chars("ceil(3.2)")).unwrap()), "4");
    assert_eq!(calc_eval(&str_chars("2+2")), Some(Rat { num: 4, den: 1 }));
    // plain words never reach a value
    assert!(calc_eval(&str_chars("firefox")).is_none());
}

#[test]
fn transcendentals_evaluate_only_exact_points() {
    assert_eq!(s(&calc_row(&str_chars("sin(0)")).unwrap()), "0");
    assert_eq!(s(&calc_row(&str_chars("tan(0)")).unwrap()), "0");
    assert_eq!(s(&calc_row(&str_chars("cos(0)")).unwrap()), "1");
    assert_eq!(s(&calc_row(&str_chars("exp(0)")).unwrap()), "1");
    assert_eq!(s(&calc_row(&str_chars("ln(1)")).unwrap()), "0");
    assert_eq!(s(&calc_row(&str_chars("log(1)")).unwrap()), "0");
    assert_eq!(s(&calc_row(&str_chars("cos(0) + 1")).unwrap()), "2");
    // away from the exact points no value is shown
    assert!(calc_row(&str_chars("sin(1)")).is_none());
    assert!(calc_row(&str_chars("ln(2)")).is_none());
    assert!(calc_row(&str_chars("sqrt(2)")).is_none());
}

// "$10 to EUR" with default USD; an unknown code and a same-currency
// request do not parse.
#[test]
fn explicit_conversion_scenarios() {
    let t = str_chars("$");
    let d = str_chars("USD");
    let req = parse_explicit_exec(&str_chars("$10 to EUR"), &t, &d).unwrap();
    assert_eq!(req.amount, Amount { man: 10, scale: 0 });
    assert_eq!(s(&req.from), "USD");
    assert_eq!(s(&req.to), "EUR");
    assert!(parse_explicit_exec(&str_chars("$10 XYZ to EUR"), &t, &d).is_none());
    assert!(parse_explicit_exec(&str_chars("$10 USD to USD"), &t, &d).is_none());
    let req2 = parse_explicit_exec(&str_chars("$12.50EUR in GBP"), &t, &d).unwrap();
    assert_eq!(req2.amount, Amount { man: 1250, scale: 2 });
    assert_eq!(s(&req2.from), "EUR");
    assert_eq!(s(&req2.to), "GBP");
    // word names resolve, case-insensitively
    let req3 = parse_explicit_exec(&str_chars("$5 to euros"), &t, &d).unwrap();
    assert_eq!(s(&req3.to), "EUR");
}

#[test]
fn bare_amount_scenarios() {
    let t = str_chars("$");
    let d = str_chars("USD");
    let (a, from) = parse_bare_exec(&str_chars("$10"), &t, &d).unwrap();
    assert_eq!(a, Amount { man: 10, scale: 0 });
    assert_eq!(s(&from), "USD");
    let (_, from2) = parse_bare_exec(&str_chars("$10 GBP"), &t, &d).unwrap();
    assert_eq!(s(&from2), "GBP");
    assert!(parse_bare_exec(&str_chars("$ten"), &t, &d).is_none());
}

#[test]
fn amount_token_grammar() {
    let (a, rest) = amount_tok_exec(&str_chars("10.25eur")).unwrap();
    assert_eq!(a, Amount { man: 1025, scale: 2 });
    assert_eq!(s(&rest), "eur");
    assert!(amount_tok_exec(&str_chars("x10")).is_none());
    assert!(amount_tok_exec(&str_chars("10.")).is_none());
}

#[test]
fn conversion_arithmetic_is_exact() {
    // 10 at 0.92 gives 9.20
    assert_eq!(convert_micro(Amount { man: 10, scale: 0 }, 920_000), Some(9_200_000));
    // 12.50 at 1.10 gives 13.75
    assert_eq!(convert_micro(Amount { man: 1250, scale: 2 }, 1_100_000), Some(13_750_000));
}

// "fox" ranks Firefox above unrelated entries; an empty query keeps the
// order unchanged.
#[test]
fn fuzzy_ranking_scenarios() {
    let labels = vec![
        str_chars("Terminal"),
        str_chars("Firefox"),
        str_chars("Files"),
    ];
    let ranked = rank(&str_chars("fox"), &labels);
    assert_eq!(ranked, vec![1]);
    let all = rank(&[], &labels);
    assert_eq!(all, vec![0, 1, 2]);
    // case-folded subsequence scoring
    assert!(score(&str_chars("ff"), &str_chars("Firefox")).is_some());
    assert!(score(&str_chars("fox"), &str_chars("Files")).is_none());
    // a word boundary beats a mid-word match of the same letters
    let a = score(&str_chars("f"), &str_chars("x f")).unwrap();
    let b = score(&str_chars("f"), &str_chars("xf")).unwrap();
    assert!(a > b);
}

// Cap two: submitting a, b, c stores [b, c]; resubmitting b moves it to
// the end without duplication.
#[test]
fn history_cap_and_dedup() {
    let mut h = HistoryLog::new(2);
    h.submit(&str_chars("a"));
    h.submit(&str_chars("b"));
    h.submit(&str_chars("c"));
    assert_eq!(h.len(), 2);
    assert_eq!(s(&h.item_at(0)), "b");
    assert_eq!(s(&h.item_at(1)), "c");
    h.submit(&str_chars("b"));
    assert_eq!(h.len(), 2);
    assert_eq!(s(&h.item_at(0)), "c");
    assert_eq!(s(&h.item_at(1)), "b");
}

#[test]
fn history_trims_and_skips_empty() {
    let mut h = HistoryLog::new(5);
    h.submit(&str_chars("  spaced  "));
    h.submit(&str_chars("   "));
    assert_eq!(h.len(), 1);
    assert_eq!(s(&h.item_at(0)), "spaced");
}

// Writing and reading the files back yields the same records.
#[test]
fn mru_round_trip() {
    let mut m = MruMap::new();
    m.bump(&str_chars("Firefox browser"));
    m.bump(&str_chars("Terminal"));
    m.bump(&str_chars("Terminal"));
    let sorted = m.sorted_entries();
    assert_eq!(s(&sorted[0].0), "Terminal");
    assert_eq!(sorted[0].1, 2);
    assert_eq!(s(&sorted[1].0), "Firefox browser");
    assert_eq!(sorted[1].1, 1);
    let lines = mru_to_lines(&sorted);
    assert_eq!(lines, "Terminal|2\nFirefox browser|1\n");
    let back = mru_from_lines(&lines);
    assert_eq!(back.len(), 2);
    let reloaded = mru_from_entries(back);
    assert_eq!(reloaded.count_of(&str_chars("Terminal")), 2);
    assert_eq!(reloaded.count_of(&str_chars("Firefox browser")), 1);
}

#[test]
fn mru_reader_skips_malformed_lines() {
    let back = mru_from_lines("good|3\nno separator\nbad|count\nalso|7\n");
    assert_eq!(back.len(), 2);
    assert_eq!(s(&back[0].0), "good");
    assert_eq!(back[0].1, 3);
    assert_eq!(s(&back[1].0), "also");
    assert_eq!(back[1].1, 7);
}

#[test]
fn history_round_trip() {
    let mut h = HistoryLog::new(10);
    h.submit(&str_chars("first"));
    h.submit(&str_chars("second query"));
    let lines = h.to_lines();
    assert_eq!(lines, "first\nsecond query\n");
    let items = hist_from_lines(&lines);
    let reloaded = HistoryLog::from_items(items, 10);
    assert_eq!(reloaded.len(), 2);
    assert_eq!(s(&reloaded.item_at(0)), "first");
    assert_eq!(s(&reloaded.item_at(1)), "second query");
    // reloading under a smaller cap keeps the newest entries
    let again = HistoryLog::from_items(hist_from_lines(&lines), 1);
    assert_eq!(again.len(), 1);
    assert_eq!(s(&again.item_at(0)), "second query");
}

#[test]
fn history_file_text_is_lines() {
    let items = hist_from_lines("a\nb\n");
    assert_eq!(items.len(), 2);
    assert_eq!(hist_to_lines(&items), "a\nb\n");
}
