//! The session state machine: one query, one active mode, per-mode
//! request generations, a flattened selectable item list, and the
//! resolution of navigation, submission and cancellation.

use vstd::prelude::*;
use crate::calc::calc_row;
use crate::calc::calc_row_spec;
use crate::config::RaffiConfig;
use crate::currency::RateCache;
use crate::currency::cache_lookup_spec;
use crate::currency::parse_bare_exec;
use crate::currency::parse_bare_spec;
use crate::currency::parse_explicit_exec;
use crate::currency::parse_explicit_spec;
use crate::fuzzy::is_match;
use crate::fuzzy::rank;
use crate::fuzzy::rank_before;
use crate::history::HistoryLog;
use crate::history::MruMap;
use crate::history::remove_all;
use crate::launcher::description_of;
use crate::mode::AddonSettings;
use crate::mode::MatchMode;
use crate::mode::first_kw;
use crate::mode::mode_of;
use crate::mode::mode_of_query;
use crate::mode::script_keywords;
use crate::mode::web_keywords;
use crate::order::count_sorted;
use crate::order::ident_seq;
use crate::order::sort_positions_by_count;
use crate::text::clone_chars;
use crate::text::str_chars;

verus! {

/// One item handed back by a script filter.
pub struct ScriptItem {
    pub title: String,
    pub subtitle: Option<String>,
    pub arg: Option<String>,
    pub icon_path: Option<String>,
}

/// A side effect the surrounding application performs for the engine.
pub enum Command {
    /// Scroll the list so that row `num` of `den` is in view.
    SetScroll { num: usize, den: usize },
    /// Start the script filter's program for the current query.
    StartScriptFetch { generation: u64, filter_index: usize, argument: String },
    /// Fetch exchange rates from the base currency to the targets.
    StartRateFetch { generation: u64, base: String, targets: Vec<String> },
    /// List a directory for the file browser.
    ListDir { path: String },
    /// Put text on the clipboard.
    CopyToClipboard { text: String },
    /// Open a URL with the platform opener.
    OpenUrl { url: String },
    /// Open a file with the platform opener.
    OpenPath { path: String },
    /// Run a shell command.
    RunShell { command: String },
    /// Launch the entry at a position of the engine's entry list.
    Launch { index: usize },
    /// Write the use counts file.
    SaveMru { lines: String },
    /// Write the history file.
    SaveHistory { lines: String },
    /// Replace the query text (directory drill-down).
    SetQuery { text: String },
    /// End the session.
    Close { submitted: bool },
}

/// The label an entry is ranked and recorded under.
pub open spec fn labels_of(configs: Seq<RaffiConfig>) -> Seq<Seq<char>> {
    configs.map_values(|c: RaffiConfig| description_of(c@))
}

/// Whether `r` is the ranking the fuzzy ranker gives for this query:
/// every listed row is a match, every match is listed, better scores
/// come first, and an empty query keeps every entry in order.
pub open spec fn ranked_ok(q: Seq<char>, labels: Seq<Seq<char>>, r: Seq<usize>) -> bool {
    (forall|k: int| 0 <= k < r.len() ==> (#[trigger] r[k]) < labels.len() && is_match(q, labels[r[k] as int]))
        && (forall|i: usize| i < labels.len() && is_match(q, labels[i as int]) ==> r.contains(i))
        && (forall|a: int, b: int| 0 <= a < b < r.len() ==> rank_before(q, labels, r[a], r[b]))
        && (q.len() == 0 ==> r == ident_seq(labels.len()))
}

/// One formatted conversion row: the converted value with two fraction
/// digits, a space, and the target code.
pub open spec fn conv_row_text(man: nat, scale: nat, rate: u64, to: Seq<char>) -> Seq<char> {
    crate::currency::money_display(
        crate::currency::convert_spec(man, scale, rate) as u64,
    ) + seq![' '] + to
}

/// Whether a conversion can be shown: the scale is in range and the
/// converted value fits.
pub open spec fn conv_fits(man: nat, scale: nat, rate: u64) -> bool {
    scale <= 18 && crate::currency::convert_spec(man, scale, rate) <= u64::MAX
}

/// The rows an explicit conversion shows: one, when the cache holds a
/// fresh rate and the value fits; none otherwise.
pub open spec fn conv_row_single(
    req: crate::currency::ReqV,
    cache: Seq<(Seq<char>, Seq<char>, u64, u64)>,
    now: u64,
) -> Seq<Seq<char>> {
    match cache_lookup_spec(cache, req.from, req.to, now) {
        Some(rate) => if conv_fits(req.man, req.scale, rate) {
            seq![conv_row_text(req.man, req.scale, rate, req.to)]
        } else {
            Seq::empty()
        },
        None => Seq::empty(),
    }
}

/// The rows a bare-amount conversion shows: one per configured currency
/// other than the source whose fresh rate is cached and whose value
/// fits, in configuration order.
pub open spec fn conv_rows_multi(
    man: nat,
    scale: nat,
    from: Seq<char>,
    currencies: Seq<Seq<char>>,
    cache: Seq<(Seq<char>, Seq<char>, u64, u64)>,
    now: u64,
) -> Seq<Seq<char>>
    decreases currencies.len(),
{
    if currencies.len() == 0 {
        Seq::empty()
    } else {
        let rest = conv_rows_multi(man, scale, from, currencies.drop_first(), cache, now);
        let t = currencies[0];
        if t != from {
            match cache_lookup_spec(cache, from, t, now) {
                Some(rate) => if conv_fits(man, scale, rate) {
                    seq![conv_row_text(man, scale, rate, t)] + rest
                } else {
                    rest
                },
                None => rest,
            }
        } else {
            rest
        }
    }
}

/// Multi-conversion rows distribute over appending one currency.
proof fn lemma_conv_multi_snoc(
    man: nat,
    scale: nat,
    from: Seq<char>,
    currencies: Seq<Seq<char>>,
    t: Seq<char>,
    cache: Seq<(Seq<char>, Seq<char>, u64, u64)>,
    now: u64,
)
    ensures
        conv_rows_multi(man, scale, from, currencies.push(t), cache, now) == conv_rows_multi(
            man,
            scale,
            from,
            currencies,
            cache,
            now,
        ) + (if t != from {
            match cache_lookup_spec(cache, from, t, now) {
                Some(rate) => if conv_fits(man, scale, rate) {
                    seq![conv_row_text(man, scale, rate, t)]
                } else {
                    Seq::<Seq<char>>::empty()
                },
                None => Seq::<Seq<char>>::empty(),
            }
        } else {
            Seq::<Seq<char>>::empty()
        }),
    decreases currencies.len(),
{
    let tail = (if t != from {
        match cache_lookup_spec(cache, from, t, now) {
            Some(rate) => if conv_fits(man, scale, rate) {
                seq![conv_row_text(man, scale, rate, t)]
            } else {
                Seq::<Seq<char>>::empty()
            },
            None => Seq::<Seq<char>>::empty(),
        }
    } else {
        Seq::<Seq<char>>::empty()
    });
    if currencies.len() == 0 {
        assert(currencies.push(t)[0] == t);
        assert(currencies.push(t).drop_first() =~= currencies);
        assert(conv_rows_multi(man, scale, from, currencies, cache, now)
            == Seq::<Seq<char>>::empty());
        assert(tail + Seq::<Seq<char>>::empty() =~= tail);
        assert(Seq::<Seq<char>>::empty() + tail =~= tail);
    } else {
        lemma_conv_multi_snoc(man, scale, from, currencies.drop_first(), t, cache, now);
        assert(currencies.push(t).drop_first() =~= currencies.drop_first().push(t));
        assert(currencies.push(t)[0] == currencies[0]);
        let rest = conv_rows_multi(man, scale, from, currencies.drop_first(), cache, now);
        let h = currencies[0];
        if h != from {
            match cache_lookup_spec(cache, from, h, now) {
                Some(rate) => {
                    if conv_fits(man, scale, rate) {
                        assert(seq![conv_row_text(man, scale, rate, h)] + (rest + tail) =~= (
                        seq![conv_row_text(man, scale, rate, h)] + rest) + tail);
                    }
                },
                None => {
                },
            }
        }
    }
}

/// The view of a rate answer: target code and rate in millionths.
pub open spec fn rates_view(v: Seq<(Vec<char>, u64)>) -> Seq<(Seq<char>, u64)> {
    v.map_values(|e: (Vec<char>, u64)| (e.0@, e.1))
}

/// The cache after storing every returned pair, in answer order.
pub open spec fn cache_puts(
    cache: Seq<(Seq<char>, Seq<char>, u64, u64)>,
    base: Seq<char>,
    rates: Seq<(Seq<char>, u64)>,
    now: u64,
) -> Seq<(Seq<char>, Seq<char>, u64, u64)>
    decreases rates.len(),
{
    if rates.len() == 0 {
        cache
    } else {
        cache_puts(
            crate::currency::cache_put_spec(cache, base, rates[0].0, rates[0].1, now),
            base,
            rates.drop_first(),
            now,
        )
    }
}

/// Storing distributes over appending one pair.
proof fn lemma_cache_puts_snoc(
    cache: Seq<(Seq<char>, Seq<char>, u64, u64)>,
    base: Seq<char>,
    rates: Seq<(Seq<char>, u64)>,
    x: (Seq<char>, u64),
    now: u64,
)
    ensures
        cache_puts(cache, base, rates.push(x), now) == crate::currency::cache_put_spec(
            cache_puts(cache, base, rates, now),
            base,
            x.0,
            x.1,
            now,
        ),
    decreases rates.len(),
{
    if rates.len() == 0 {
        assert(rates.push(x)[0] == x);
        assert(rates.push(x).drop_first() =~= rates);
        assert(cache_puts(
            crate::currency::cache_put_spec(cache, base, x.0, x.1, now),
            base,
            rates,
            now,
        ) == crate::currency::cache_put_spec(cache, base, x.0, x.1, now));
        assert(cache_puts(cache, base, rates, now) == cache);
    } else {
        assert(rates.push(x)[0] == rates[0]);
        assert(rates.push(x).drop_first() =~= rates.drop_first().push(x));
        lemma_cache_puts_snoc(
            crate::currency::cache_put_spec(cache, base, rates[0].0, rates[0].1, now),
            base,
            rates.drop_first(),
            x,
            now,
        );
    }
}

/// The session's state.
pub struct QueryEngine {
    pub configs: Vec<RaffiConfig>,
    pub labels: Vec<Vec<char>>,
    pub settings: AddonSettings,
    pub home: Vec<char>,
    pub query: Vec<char>,
    pub mode: MatchMode,
    pub selection: usize,
    pub script_gen: u64,
    pub currency_gen: u64,
    pub multi_gen: u64,
    pub script_loading: bool,
    pub script_items: Vec<ScriptItem>,
    pub calc_rows: Vec<Vec<char>>,
    pub conv_rows: Vec<Vec<char>>,
    pub rate_cache: RateCache,
    pub mru: MruMap,
    pub history: HistoryLog,
    pub nav_stash: Option<Vec<char>>,
    pub nav_cursor: Option<usize>,
    pub ranked: Vec<usize>,
    pub cur_dir: Option<Vec<char>>,
    pub listing: Vec<(Vec<char>, bool)>,
    pub dir_rows: Vec<(Vec<char>, bool)>,
    pub closed: Option<bool>,
}

impl QueryEngine {
    /// The number of mode-specific rows shown above the ranked entries.
    pub open spec fn special_count(&self) -> nat {
        match self.mode {
            MatchMode::AppSearch => 0,
            MatchMode::Calculator => self.calc_rows@.len(),
            MatchMode::CurrencyConvert => self.conv_rows@.len(),
            MatchMode::MultiCurrencyConvert => self.conv_rows@.len(),
            MatchMode::ScriptFilter => self.script_items@.len(),
            MatchMode::FileBrowser => self.dir_rows@.len(),
            MatchMode::WebSearch => 1,
            MatchMode::CurrencyHelp => 1,
        }
    }

    /// The number of selectable rows: mode rows, then ranked entries.
    pub open spec fn total_items(&self) -> nat {
        self.special_count() + self.ranked@.len()
    }

    /// The structural soundness of a session.
    pub open spec fn wf(&self) -> bool {
        &&& self.labels@.len() == self.configs@.len()
        &&& (forall|i: int|
            0 <= i < self.labels@.len() ==> (#[trigger] self.labels@[i])@ == description_of(
                self.configs@[i]@,
            ))
        &&& self.mode == mode_of(self.query@, &self.settings)
        &&& ranked_ok(self.query@, labels_of(self.configs@), self.ranked@)
        &&& (self.total_items() > 0 ==> self.selection < self.total_items())
        &&& (self.total_items() == 0 ==> self.selection == 0)
    }

    /// The number of selectable rows.
    pub fn item_count(&self) -> (r: usize)
        requires
            self.total_items() <= usize::MAX,
        ensures
            r == self.total_items(),
    {
        let special: usize = match self.mode {
            MatchMode::AppSearch => 0,
            MatchMode::Calculator => self.calc_rows.len(),
            MatchMode::CurrencyConvert => self.conv_rows.len(),
            MatchMode::MultiCurrencyConvert => self.conv_rows.len(),
            MatchMode::ScriptFilter => self.script_items.len(),
            MatchMode::FileBrowser => self.dir_rows.len(),
            MatchMode::WebSearch => 1,
            MatchMode::CurrencyHelp => 1,
        };
        special + self.ranked.len()
    }

    /// Move the selection up or down by one row, wrapping at both ends,
    /// and ask for a proportional scroll.
    pub fn on_navigate(&mut self, down: bool) -> (cmds: Vec<Command>)
        requires
            old(self).wf(),
            old(self).total_items() <= usize::MAX,
        ensures
            final(self).wf(),
            old(self).total_items() == 0 ==> final(self).selection == 0,
            old(self).total_items() > 0 && down ==> final(self).selection == (old(self).selection
                + 1) % (old(self).total_items() as int),
            old(self).total_items() > 0 && !down ==> final(self).selection == (old(self).selection
                + old(self).total_items() - 1) % (old(self).total_items() as int),
            *final(self) == (QueryEngine { selection: final(self).selection, ..*old(self) }),
            old(self).total_items() > 1 ==> cmds@.len() == 1 && (cmds@[0] matches
                Command::SetScroll { num, den } && num == final(self).selection && den == old(self).total_items() - 1),
            old(self).total_items() <= 1 ==> cmds@.len() == 0,
    {
        let total = self.item_count();
        if total == 0 {
            self.selection = 0;
            return Vec::new();
        }
        if down {
            if self.selection + 1 >= total {
                self.selection = 0;
            } else {
                self.selection = self.selection + 1;
            }
            proof {
                if old(self).selection + 1 == total {
                    vstd::arithmetic::div_mod::lemma_mod_self_0(total as int);
                    assert((old(self).selection + 1) % (total as int) == 0);
                } else {
                    vstd::arithmetic::div_mod::lemma_small_mod(
                        (old(self).selection + 1) as nat,
                        total as nat,
                    );
                }
            }
        } else {
            if self.selection == 0 {
                self.selection = total - 1;
            } else {
                self.selection = self.selection - 1;
            }
            proof {
                if old(self).selection == 0 {
                    vstd::arithmetic::div_mod::lemma_small_mod((total - 1) as nat, total as nat);
                } else {
                    vstd::arithmetic::div_mod::lemma_mod_add_multiples_vanish(
                        (old(self).selection - 1) as int,
                        total as int,
                    );
                    vstd::arithmetic::div_mod::lemma_small_mod(
                        (old(self).selection - 1) as nat,
                        total as nat,
                    );
                    assert(old(self).selection + total - 1 == (old(self).selection - 1) + total);
                }
            }
        }
        let mut cmds: Vec<Command> = Vec::new();
        if total > 1 {
            cmds.push(Command::SetScroll { num: self.selection, den: total - 1 });
        }
        cmds
    }

    /// End the session without any other effect: everything but the
    /// closed flag stays as it was, and nothing is persisted.
    pub fn on_cancel(&mut self) -> (cmds: Vec<Command>)
        requires
            old(self).wf(),
        ensures
            final(self).wf(),
            *final(self) == (QueryEngine { closed: Some(false), ..*old(self) }),
            cmds@.len() == 1 && (cmds@[0] matches Command::Close { submitted } && submitted
                == false),
    {
        self.closed = Some(false);
        let mut cmds: Vec<Command> = Vec::new();
        cmds.push(Command::Close { submitted: false });
        cmds
    }

    /// Take a script filter's answer: it is applied only when its
    /// generation is still the current one; an older answer changes
    /// nothing. This is the engine's only cancellation mechanism.
    pub fn apply_script_result(&mut self, generation: u64, items: Vec<ScriptItem>) -> (applied:
        bool)
        requires
            old(self).wf(),
        ensures
            final(self).wf(),
            applied <==> (generation == old(self).script_gen && old(self).mode
                == MatchMode::ScriptFilter),
            applied ==> final(self).script_items == items && !final(self).script_loading
                && final(self).selection == 0,
            final(self).configs == old(self).configs,
            final(self).labels == old(self).labels,
            !applied ==> *final(self) == *old(self),
            final(self).script_gen == old(self).script_gen,
            final(self).currency_gen == old(self).currency_gen,
            final(self).multi_gen == old(self).multi_gen,
            generation < old(self).script_gen ==> *final(self) == *old(self),
    {
        let is_script = match self.mode {
            MatchMode::ScriptFilter => true,
            _ => false,
        };
        if generation == self.script_gen && is_script {
            self.script_items = items;
            self.script_loading = false;
            self.selection = 0;
            true
        } else {
            false
        }
    }

    /// Take a rate fetch's answer: rates from the base currency, in
    /// millionths. Every returned pair feeds the cache; the rows change
    /// only when the answer's generation is still current for the mode
    /// that asked. An older answer never changes the rows.
    pub fn apply_rate_result(
        &mut self,
        generation: u64,
        base: &[char],
        rates: &Vec<(Vec<char>, u64)>,
        now: u64,
    ) -> (applied: bool)
        requires
            old(self).wf(),
        ensures
            final(self).wf(),
            applied <==> (old(self).mode == MatchMode::CurrencyConvert && generation
                == old(self).currency_gen) || (old(self).mode == MatchMode::MultiCurrencyConvert
                && generation == old(self).multi_gen),
            final(self).script_gen == old(self).script_gen,
            final(self).currency_gen == old(self).currency_gen,
            final(self).multi_gen == old(self).multi_gen,
            final(self).mode == old(self).mode,
            final(self).query == old(self).query,
            final(self).configs == old(self).configs,
            final(self).labels == old(self).labels,
            !applied ==> final(self).conv_rows == old(self).conv_rows && final(self).selection
                == old(self).selection,
            generation < old(self).currency_gen && generation < old(self).multi_gen
                ==> final(self).conv_rows == old(self).conv_rows,
            final(self).rate_cache@ == cache_puts(
                old(self).rate_cache@,
                base@,
                rates_view(rates@),
                now,
            ),
            applied && old(self).mode == MatchMode::CurrencyConvert ==> final(self).conv_rows@.map_values(|r: Vec<char>| r@) == (match parse_explicit_spec(
                old(self).query@,
                old(self).settings.trigger@,
                old(self).settings.default_currency@,
            ) {
                Some(req) => conv_row_single(req, final(self).rate_cache@, now),
                None => Seq::<Seq<char>>::empty(),
            }),
            applied && old(self).mode == MatchMode::MultiCurrencyConvert ==> final(self).conv_rows@.map_values(|r: Vec<char>| r@) == (match parse_bare_spec(
                old(self).query@,
                old(self).settings.trigger@,
                old(self).settings.default_currency@,
            ) {
                Some(b) => conv_rows_multi(
                    b.man,
                    b.scale,
                    b.from,
                    old(self).settings.currencies.deep_view(),
                    final(self).rate_cache@,
                    now,
                ),
                None => Seq::<Seq<char>>::empty(),
            }),
    {
        let ghost rv = rates_view(rates@);
        proof {
            assert(rv.subrange(0, 0) =~= Seq::<(Seq<char>, u64)>::empty());
            assert(self.rate_cache@ == cache_puts(
                old(self).rate_cache@,
                base@,
                rv.subrange(0, 0),
                now,
            ));
        }
        let mut i: usize = 0;
        while i < rates.len()
            invariant
                old(self).wf(),
                i <= rates@.len(),
                rv == rates_view(rates@),
                self.rate_cache@ == cache_puts(
                    old(self).rate_cache@,
                    base@,
                    rv.subrange(0, i as int),
                    now,
                ),
                self.configs == old(self).configs,
                self.labels == old(self).labels,
                self.settings == old(self).settings,
                self.query == old(self).query,
                self.mode == old(self).mode,
                self.selection == old(self).selection,
                self.script_gen == old(self).script_gen,
                self.currency_gen == old(self).currency_gen,
                self.multi_gen == old(self).multi_gen,
                self.conv_rows == old(self).conv_rows,
                self.ranked == old(self).ranked,
                self.calc_rows == old(self).calc_rows,
                self.script_items == old(self).script_items,
                self.dir_rows == old(self).dir_rows,
            decreases rates@.len() - i,
        {
            proof {
                lemma_cache_puts_snoc(
                    old(self).rate_cache@,
                    base@,
                    rv.subrange(0, i as int),
                    rv[i as int],
                    now,
                );
                assert(rv.subrange(0, i + 1) =~= rv.subrange(0, i as int).push(rv[i as int]));
            }
            self.rate_cache.put(base, rates[i].0.as_slice(), rates[i].1, now);
            i += 1;
        }
        proof {
            assert(rv.subrange(0, rv.len() as int) =~= rv);
        }
        let applies = match self.mode {
            MatchMode::CurrencyConvert => generation == self.currency_gen,
            MatchMode::MultiCurrencyConvert => generation == self.multi_gen,
            _ => false,
        };
        if !applies {
            return false;
        }
        let rows = self.build_conversion_rows(now);
        self.conv_rows = rows;
        self.selection = 0;
        true
    }

    /// The conversion rows the cache can answer for the current query:
    /// one formatted line per target whose rate is cached and fresh.
    fn build_conversion_rows(&self, now: u64) -> (rows: Vec<Vec<char>>)
        requires
            self.wf(),
        ensures
            self.mode == MatchMode::CurrencyConvert ==> rows@.map_values(|r: Vec<char>| r@)
                == (match parse_explicit_spec(
                self.query@,
                self.settings.trigger@,
                self.settings.default_currency@,
            ) {
                Some(req) => conv_row_single(req, self.rate_cache@, now),
                None => Seq::<Seq<char>>::empty(),
            }),
            self.mode == MatchMode::MultiCurrencyConvert ==> rows@.map_values(|r: Vec<char>| r@)
                == (match parse_bare_spec(
                self.query@,
                self.settings.trigger@,
                self.settings.default_currency@,
            ) {
                Some(b) => conv_rows_multi(
                    b.man,
                    b.scale,
                    b.from,
                    self.settings.currencies.deep_view(),
                    self.rate_cache@,
                    now,
                ),
                None => Seq::<Seq<char>>::empty(),
            }),
            self.mode != MatchMode::CurrencyConvert && self.mode != MatchMode::MultiCurrencyConvert
                ==> rows@.len() == 0,
    {
        let mut rows: Vec<Vec<char>> = Vec::new();
        let trigger = str_chars(self.settings.trigger.as_str());
        let default_cur = str_chars(self.settings.default_currency.as_str());
        match self.mode {
            MatchMode::CurrencyConvert => {
                match parse_explicit_exec(
                    self.query.as_slice(),
                    trigger.as_slice(),
                    default_cur.as_slice(),
                ) {
                    Some(req) => {
                        let ghost reqv = req@;
                        match self.rate_cache.lookup(req.from.as_slice(), req.to.as_slice(), now) {
                            Some(rate) => {
                                match crate::currency::convert_micro(req.amount, rate) {
                                    Some(v) => {
                                        let mut row = crate::currency::format_micro(v);
                                        row.push(' ');
                                        let mut code = req.to;
                                        row.append(&mut code);
                                        proof {
                                            assert(row@ =~= conv_row_text(
                                                reqv.man,
                                                reqv.scale,
                                                rate,
                                                reqv.to,
                                            ));
                                        }
                                        rows.push(row);
                                        proof {
                                            assert(rows@.map_values(|r: Vec<char>| r@)
                                                =~= conv_row_single(reqv, self.rate_cache@, now));
                                        }
                                    },
                                    None => {
                                        proof {
                                            assert(rows@.map_values(|r: Vec<char>| r@)
                                                =~= Seq::<Seq<char>>::empty());
                                        }
                                    },
                                }
                            },
                            None => {
                                proof {
                                    assert(rows@.map_values(|r: Vec<char>| r@)
                                        =~= Seq::<Seq<char>>::empty());
                                }
                            },
                        }
                    },
                    None => {
                        proof {
                            assert(rows@.map_values(|r: Vec<char>| r@)
                                =~= Seq::<Seq<char>>::empty());
                        }
                    },
                }
            },
            MatchMode::MultiCurrencyConvert => {
                match parse_bare_exec(
                    self.query.as_slice(),
                    trigger.as_slice(),
                    default_cur.as_slice(),
                ) {
                    Some((amount, from)) => {
                        let ghost cv = self.settings.currencies.deep_view();
                        let ghost fm = from@;
                        proof {
                            assert(cv.subrange(0, 0) =~= Seq::<Seq<char>>::empty());
                            assert(rows@.map_values(|r: Vec<char>| r@) =~= conv_rows_multi(
                                amount.man as nat,
                                amount.scale as nat,
                                fm,
                                cv.subrange(0, 0),
                                self.rate_cache@,
                                now,
                            ));
                        }
                        let mut t: usize = 0;
                        while t < self.settings.currencies.len()
                            invariant
                                t <= self.settings.currencies@.len(),
                                cv == self.settings.currencies.deep_view(),
                                fm == from@,
                                rows@.map_values(|r: Vec<char>| r@) == conv_rows_multi(
                                    amount.man as nat,
                                    amount.scale as nat,
                                    fm,
                                    cv.subrange(0, t as int),
                                    self.rate_cache@,
                                    now,
                                ),
                            decreases self.settings.currencies@.len() - t,
                        {
                            proof {
                                lemma_conv_multi_snoc(
                                    amount.man as nat,
                                    amount.scale as nat,
                                    fm,
                                    cv.subrange(0, t as int),
                                    cv[t as int],
                                    self.rate_cache@,
                                    now,
                                );
                                assert(cv.subrange(0, t + 1) =~= cv.subrange(0, t as int).push(
                                    cv[t as int],
                                ));
                            }
                            let target = str_chars(self.settings.currencies[t].as_str());
                            proof {
                                assert(cv[t as int] == target@);
                            }
                            let ghost rows0 = rows@;
                            if !crate::text::eq_chars(target.as_slice(), from.as_slice()) {
                                match self.rate_cache.lookup(from.as_slice(), target.as_slice(), now) {
                                    Some(rate) => {
                                        match crate::currency::convert_micro(amount, rate) {
                                            Some(v) => {
                                                let mut row = crate::currency::format_micro(v);
                                                row.push(' ');
                                                let mut code = target;
                                                row.append(&mut code);
                                                proof {
                                                    assert(row@ =~= conv_row_text(
                                                        amount.man as nat,
                                                        amount.scale as nat,
                                                        rate,
                                                        cv[t as int],
                                                    ));
                                                }
                                                rows.push(row);
                                                proof {
                                                    assert(rows@.map_values(|r: Vec<char>| r@)
                                                        =~= rows0.map_values(
                                                        |r: Vec<char>| r@,
                                                    ).push(row@));
                                                }
                                            },
                                            None => {
                                            },
                                        }
                                    },
                                    None => {
                                    },
                                }
                            }
                            proof {
                                assert(rows@.map_values(|r: Vec<char>| r@) =~= conv_rows_multi(
                                    amount.man as nat,
                                    amount.scale as nat,
                                    fm,
                                    cv.subrange(0, t + 1),
                                    self.rate_cache@,
                                    now,
                                ));
                            }
                            t += 1;
                        }
                        proof {
                            assert(cv.subrange(0, cv.len() as int) =~= cv);
                        }
                    },
                    None => {
                        proof {
                            assert(rows@.map_values(|r: Vec<char>| r@)
                                =~= Seq::<Seq<char>>::empty());
                        }
                    },
                }
            },
            _ => {
                proof {
                    assert(rows@.map_values(|r: Vec<char>| r@) =~= Seq::<Seq<char>>::empty());
                }
            },
        }
        rows
    }
}

/// One more than the generation, stopping at the top of `u64`.
pub open spec fn bump(g: u64) -> u64 {
    if g == u64::MAX {
        g
    } else {
        (g + 1) as u64
    }
}

/// Whether a listing entry is shown at all.
pub open spec fn entry_visible(e: (Seq<char>, bool), show_hidden: bool) -> bool {
    show_hidden || !(e.0.len() > 0 && e.0[0] == '.')
}

/// Whether a listing entry survives the partial filter.
pub open spec fn entry_kept(e: (Seq<char>, bool), partial: Seq<char>, show_hidden: bool) -> bool {
    entry_visible(e, show_hidden) && (partial.len() == 0 || is_match(partial, e.0))
}

/// The kept entries of one kind, in listing order.
pub open spec fn filter_rows(
    l: Seq<(Seq<char>, bool)>,
    partial: Seq<char>,
    show_hidden: bool,
    want_dir: bool,
) -> Seq<(Seq<char>, bool)>
    decreases l.len(),
{
    if l.len() == 0 {
        Seq::empty()
    } else {
        let rest = filter_rows(l.drop_first(), partial, show_hidden, want_dir);
        if l[0].1 == want_dir && entry_kept(l[0], partial, show_hidden) {
            seq![l[0]] + rest
        } else {
            rest
        }
    }
}

/// The view of listing rows.
pub open spec fn rows_view(v: Seq<(Vec<char>, bool)>) -> Seq<(Seq<char>, bool)> {
    v.map_values(|e: (Vec<char>, bool)| (e.0@, e.1))
}

/// Filtering distributes over appending one entry.
proof fn lemma_filter_rows_snoc(
    l: Seq<(Seq<char>, bool)>,
    e: (Seq<char>, bool),
    partial: Seq<char>,
    show_hidden: bool,
    want_dir: bool,
)
    ensures
        filter_rows(l.push(e), partial, show_hidden, want_dir) == if e.1 == want_dir
            && entry_kept(e, partial, show_hidden) {
            filter_rows(l, partial, show_hidden, want_dir).push(e)
        } else {
            filter_rows(l, partial, show_hidden, want_dir)
        },
    decreases l.len(),
{
    if l.len() == 0 {
        assert(l.push(e)[0] == e);
        assert(l.push(e).drop_first() =~= l);
        if e.1 == want_dir && entry_kept(e, partial, show_hidden) {
            assert(seq![e] + filter_rows(l, partial, show_hidden, want_dir) =~= filter_rows(
                l,
                partial,
                show_hidden,
                want_dir,
            ).push(e));
        }
    } else {
        lemma_filter_rows_snoc(l.drop_first(), e, partial, show_hidden, want_dir);
        assert(l.push(e).drop_first() =~= l.drop_first().push(e));
        assert(l.push(e)[0] == l[0]);
        let rest = filter_rows(l.drop_first(), partial, show_hidden, want_dir);
        if e.1 == want_dir && entry_kept(e, partial, show_hidden) {
            if l[0].1 == want_dir && entry_kept(l[0], partial, show_hidden) {
                assert(seq![l[0]] + rest.push(e) =~= (seq![l[0]] + rest).push(e));
            }
        }
    }
}

/// Collect the kept entries of one kind.
fn filter_rows_exec(
    l: &Vec<(Vec<char>, bool)>,
    partial: &[char],
    show_hidden: bool,
    want_dir: bool,
) -> (r: Vec<(Vec<char>, bool)>)
    ensures
        rows_view(r@) == filter_rows(rows_view(l@), partial@, show_hidden, want_dir),
{
    let ghost lv = rows_view(l@);
    let mut r: Vec<(Vec<char>, bool)> = Vec::new();
    proof {
        assert(lv.subrange(0, 0) =~= Seq::<(Seq<char>, bool)>::empty());
        assert(rows_view(r@) =~= filter_rows(lv.subrange(0, 0), partial@, show_hidden, want_dir));
    }
    let mut i: usize = 0;
    while i < l.len()
        invariant
            i <= l@.len(),
            lv == rows_view(l@),
            rows_view(r@) == filter_rows(lv.subrange(0, i as int), partial@, show_hidden, want_dir),
        decreases l@.len() - i,
    {
        proof {
            lemma_filter_rows_snoc(
                lv.subrange(0, i as int),
                lv[i as int],
                partial@,
                show_hidden,
                want_dir,
            );
            assert(lv.subrange(0, i + 1) =~= lv.subrange(0, i as int).push(lv[i as int]));
        }
        let name = &l[i].0;
        let is_dir = l[i].1;
        let visible = if show_hidden {
            true
        } else {
            !(name.len() > 0 && name[0] == '.')
        };
        let kept = visible && (partial.len() == 0 || crate::fuzzy::score(
            partial,
            name.as_slice(),
        ).is_some());
        if is_dir == want_dir && kept {
            let copy = clone_chars(name);
            r.push((copy, is_dir));
            proof {
                assert(rows_view(r@) =~= filter_rows(
                    lv.subrange(0, i + 1),
                    partial@,
                    show_hidden,
                    want_dir,
                ));
            }
        }
        i += 1;
    }
    proof {
        assert(lv.subrange(0, lv.len() as int) =~= lv);
    }
    r
}

/// Whether `g2` lists the entries of `g1`, each exactly once, in
/// case-folded alphabetical order.
pub open spec fn sorted_group_ok(g1: Seq<(Seq<char>, bool)>, g2: Seq<(Seq<char>, bool)>) -> bool {
    &&& g2.len() == g1.len()
    &&& (exists|ord: Seq<usize>|
        #![trigger ord.to_multiset()]
        ord.len() == g1.len() && ord.to_multiset() == ident_seq(g1.len()).to_multiset() && (
        forall|k: int| 0 <= k < g2.len() ==> g2[k] == g1[(#[trigger] ord[k]) as int]))
    &&& (forall|i: int, j: int|
        0 <= i < j < g2.len() ==> crate::order::lex_le(
            crate::text::lower_seq(g2[i].0),
            crate::text::lower_seq(g2[j].0),
        ))
}

/// Whether `rows` shows the kept entries of the listing: the kept
/// directories first, then the kept files, each group alphabetical.
pub open spec fn dir_rows_ok(
    l: Seq<(Seq<char>, bool)>,
    partial: Seq<char>,
    show_hidden: bool,
    rows: Seq<(Seq<char>, bool)>,
) -> bool {
    let dirs = filter_rows(l, partial, show_hidden, true);
    let files = filter_rows(l, partial, show_hidden, false);
    &&& rows.len() == dirs.len() + files.len()
    &&& sorted_group_ok(dirs, rows.subrange(0, dirs.len() as int))
    &&& sorted_group_ok(files, rows.subrange(dirs.len() as int, rows.len() as int))
}

/// Arrange one group of rows alphabetically, case-folded.
fn sort_group(g: &Vec<(Vec<char>, bool)>) -> (r: Vec<(Vec<char>, bool)>)
    ensures
        sorted_group_ok(rows_view(g@), rows_view(r@)),
{
    let mut keys: Vec<Vec<char>> = Vec::new();
    let mut i: usize = 0;
    while i < g.len()
        invariant
            i <= g@.len(),
            keys@.len() == i,
            forall|k: int|
                0 <= k < i ==> (#[trigger] keys@[k])@ == crate::text::lower_seq(
                    rows_view(g@)[k].0,
                ),
        decreases g@.len() - i,
    {
        let lk = crate::text::lower_chars(g[i].0.as_slice());
        keys.push(lk);
        i += 1;
    }
    let ord = crate::order::sort_positions_by_key(&keys);
    let mut r: Vec<(Vec<char>, bool)> = Vec::new();
    let mut k: usize = 0;
    while k < ord.len()
        invariant
            k <= ord@.len(),
            ord@.len() == g@.len(),
            keys@.len() == g@.len(),
            forall|j: int| 0 <= j < ord@.len() ==> ord@[j] < g@.len(),
            forall|j: int|
                0 <= j < keys@.len() ==> (#[trigger] keys@[j])@ == crate::text::lower_seq(
                    rows_view(g@)[j].0,
                ),
            forall|i2: int, j2: int|
                0 <= i2 < j2 < ord@.len() ==> crate::order::lex_le(
                    keys@[ord@[i2] as int]@,
                    keys@[ord@[j2] as int]@,
                ),
            r@.len() == k,
            forall|j: int|
                0 <= j < k ==> #[trigger] rows_view(r@)[j] == rows_view(g@)[ord@[j] as int],
        decreases ord@.len() - k,
    {
        let idx = ord[k];
        let name = clone_chars(&g[idx].0);
        let is_dir = g[idx].1;
        let ghost r0 = r@;
        r.push((name, is_dir));
        proof {
            assert(rows_view(r@)[k as int] == rows_view(g@)[ord@[k as int] as int]);
            assert(forall|j: int|
                0 <= j < k ==> #[trigger] rows_view(r@)[j] == rows_view(r0)[j]);
        }
        k += 1;
    }
    proof {
        assert forall|i2: int, j2: int| 0 <= i2 < j2 < rows_view(r@).len() implies
            crate::order::lex_le(
            crate::text::lower_seq(rows_view(r@)[i2].0),
            crate::text::lower_seq(rows_view(r@)[j2].0),
        ) by {
            assert(rows_view(r@)[i2] == rows_view(g@)[ord@[i2] as int]);
            assert(rows_view(r@)[j2] == rows_view(g@)[ord@[j2] as int]);
            assert(keys@[ord@[i2] as int]@ == crate::text::lower_seq(rows_view(r@)[i2].0));
            assert(keys@[ord@[j2] as int]@ == crate::text::lower_seq(rows_view(r@)[j2].0));
        }
        let ghost ov = ord@;
        assert(ov.len() == rows_view(g@).len() && ov.to_multiset() == ident_seq(
            rows_view(g@).len(),
        ).to_multiset() && (forall|k2: int|
            0 <= k2 < rows_view(r@).len() ==> rows_view(r@)[k2] == rows_view(g@)[(
            #[trigger] ov[k2]) as int]));
    }
    r
}

/// Build the file browser's rows.
fn build_dir_rows(
    l: &Vec<(Vec<char>, bool)>,
    partial: &[char],
    show_hidden: bool,
) -> (r: Vec<(Vec<char>, bool)>)
    ensures
        dir_rows_ok(rows_view(l@), partial@, show_hidden, rows_view(r@)),
{
    let dirs = filter_rows_exec(l, partial, show_hidden, true);
    let files = filter_rows_exec(l, partial, show_hidden, false);
    let mut sd = sort_group(&dirs);
    let mut sf = sort_group(&files);
    let ghost sdv = rows_view(sd@);
    let ghost sfv = rows_view(sf@);
    sd.append(&mut sf);
    proof {
        assert(rows_view(sd@) =~= sdv + sfv);
        assert(rows_view(sd@).subrange(0, sdv.len() as int) =~= sdv);
        assert(rows_view(sd@).subrange(sdv.len() as int, rows_view(sd@).len() as int) =~= sfv);
    }
    sd
}

/// The query expanded for the file browser: the home sign is replaced
/// by the home directory.
pub open spec fn expand_home(q: Seq<char>, home: Seq<char>) -> Seq<char> {
    if q == "~"@ {
        home
    } else if crate::text::starts_with(q, "~/"@) {
        home + q.drop_first()
    } else {
        q
    }
}

/// The directory part of an expanded path: everything up to and
/// including the last slash; empty when there is none.
pub open spec fn fb_dir(p: Seq<char>) -> Seq<char> {
    match crate::text::last_index_of(p, '/') {
        Some(i) => p.subrange(0, i + 1),
        None => Seq::empty(),
    }
}

/// The filter part of an expanded path: everything after the last
/// slash; the whole path when there is none.
pub open spec fn fb_partial(p: Seq<char>) -> Seq<char> {
    match crate::text::last_index_of(p, '/') {
        Some(i) => p.subrange(i + 1, p.len() as int),
        None => p,
    }
}

/// Expand the home sign.
fn expand_home_exec(q: &[char], home: &[char]) -> (r: Vec<char>)
    ensures
        r@ == expand_home(q@, home@),
{
    let tilde = str_chars("~");
    if crate::text::eq_chars(q, tilde.as_slice()) {
        let mut r: Vec<char> = Vec::new();
        r.extend_from_slice(home);
        proof {
            assert(r@ =~= home@);
        }
        return r;
    }
    let tslash = str_chars("~/");
    if crate::text::starts_with_chars(q, tslash.as_slice()) {
        proof {
            reveal_strlit("~/");
            assert(q@.len() >= 2);
        }
        let mut r: Vec<char> = Vec::new();
        r.extend_from_slice(home);
        let rest: &[char] = &q[1..q.len()];
        r.extend_from_slice(rest);
        proof {
            assert(rest@ =~= q@.drop_first());
            assert(r@ =~= home@ + q@.drop_first());
        }
        return r;
    }
    let mut r: Vec<char> = Vec::new();
    r.extend_from_slice(q);
    proof {
        assert(r@ =~= q@);
    }
    r
}

/// Split an expanded path into directory and filter parts.
fn fb_split_exec(p: &[char]) -> (r: (Vec<char>, Vec<char>))
    ensures
        r.0@ == fb_dir(p@),
        r.1@ == fb_partial(p@),
{
    let n = p.len();
    match crate::text::find_last(p, '/') {
        Some(i) => {
            proof {
                let li = crate::text::last_index_of(p@, '/');
                let w = choose|w: int|
                    0 <= w < p@.len() && p@[w] == '/' && (forall|j: int|
                        w < j < p@.len() ==> p@[j] != '/');
                if w < i as int {
                    assert(p@[i as int] != '/');
                }
                if (i as int) < w {
                    assert(p@[w] != '/');
                }
                assert(li == Some(i as int));
            }
            let mut d: Vec<char> = Vec::new();
            let head: &[char] = &p[0..i + 1];
            d.extend_from_slice(head);
            let mut f: Vec<char> = Vec::new();
            let tail: &[char] = &p[i + 1..n];
            f.extend_from_slice(tail);
            proof {
                assert(d@ =~= fb_dir(p@));
                assert(f@ =~= fb_partial(p@));
            }
            (d, f)
        },
        None => {
            proof {
                assert(crate::text::last_index_of(p@, '/') is None);
            }
            let d: Vec<char> = Vec::new();
            let mut f: Vec<char> = Vec::new();
            f.extend_from_slice(p);
            proof {
                assert(d@ =~= fb_dir(p@));
                assert(f@ =~= fb_partial(p@));
            }
            (d, f)
        },
    }
}

/// Clone one launcher entry, field by field.
fn clone_config(c: &RaffiConfig) -> (r: RaffiConfig)
    ensures
        r@ == c@,
{
    RaffiConfig {
        binary: clone_opt_string(&c.binary),
        args: clone_opt_strings(&c.args),
        icon: clone_opt_string(&c.icon),
        description: clone_opt_string(&c.description),
        ifenveq: clone_opt_strings(&c.ifenveq),
        ifenvset: clone_opt_string(&c.ifenvset),
        ifenvnotset: clone_opt_string(&c.ifenvnotset),
        ifexist: clone_opt_string(&c.ifexist),
        disabled: c.disabled,
        script: clone_opt_string(&c.script),
    }
}

/// Clone an optional string.
fn clone_opt_string(o: &Option<String>) -> (r: Option<String>)
    ensures
        crate::config::opt_view(r) == crate::config::opt_view(*o),
{
    match o {
        Some(s) => Some(s.clone()),
        None => None,
    }
}

/// Clone an optional string list.
fn clone_opt_strings(o: &Option<Vec<String>>) -> (r: Option<Vec<String>>)
    ensures
        crate::config::opt_list_view(r) == crate::config::opt_list_view(*o),
{
    match o {
        Some(v) => {
            let mut out: Vec<String> = Vec::new();
            let mut i: usize = 0;
            while i < v.len()
                invariant
                    i <= v@.len(),
                    out@ == v@.subrange(0, i as int),
                decreases v@.len() - i,
            {
                out.push(v[i].clone());
                i += 1;
                proof {
                    assert(out@ =~= v@.subrange(0, i as int));
                }
            }
            proof {
                assert(out.deep_view() =~= v.deep_view());
            }
            Some(out)
        },
        None => None,
    }
}

impl QueryEngine {
    /// Start a session: the entries are ordered once by descending use
    /// count (ties keep configuration order), the query is empty, and
    /// plain search is active.
    pub fn new(
        configs: Vec<RaffiConfig>,
        settings: AddonSettings,
        home: Vec<char>,
        mru: MruMap,
        history: HistoryLog,
    ) -> (r: QueryEngine)
        ensures
            r.wf(),
            r.query@ == Seq::<char>::empty(),
            r.selection == 0,
            r.script_gen == 0 && r.currency_gen == 0 && r.multi_gen == 0,
            r.closed is None,
            r.settings == settings,
            r.mru == mru,
            r.history == history,
            r.configs@.len() == configs@.len(),
            exists|ord: Seq<usize>|
                #![trigger ord.to_multiset()]
                ord.len() == configs@.len() && ord.to_multiset() == ident_seq(
                    configs@.len(),
                ).to_multiset() && count_sorted(
                    Seq::new(
                        configs@.len(),
                        |i: int| crate::history::mru_count_of(
                            mru@,
                            description_of(configs@[i]@),
                        ),
                    ),
                    ord,
                ) && (forall|k: int|
                    0 <= k < configs@.len() ==> r.configs@[k]@ == configs@[(
                    #[trigger] ord[k]) as int]@),
    {
        let ghost counts_spec = Seq::new(
            configs@.len(),
            |i: int| crate::history::mru_count_of(mru@, description_of(configs@[i]@)),
        );
        let mut counts: Vec<u32> = Vec::new();
        let mut i: usize = 0;
        while i < configs.len()
            invariant
                i <= configs@.len(),
                counts@.len() == i,
                forall|k: int| 0 <= k < i ==> counts@[k] == counts_spec[k],
                counts_spec == Seq::new(
                    configs@.len(),
                    |j: int| crate::history::mru_count_of(
                        mru@,
                        description_of(configs@[j]@),
                    ),
                ),
            decreases configs@.len() - i,
        {
            let label: &str = match &configs[i].description {
                Some(d) => d.as_str(),
                None => match &configs[i].binary {
                    Some(b) => b.as_str(),
                    None => "unknown",
                },
            };
            let lc = str_chars(label);
            proof {
                assert(lc@ == description_of(configs@[i as int]@));
            }
            let c = mru.count_of(lc.as_slice());
            counts.push(c);
            i += 1;
        }
        proof {
            assert(counts@ =~= counts_spec);
        }
        let order = sort_positions_by_count(&counts);
        let mut sorted: Vec<RaffiConfig> = Vec::new();
        let mut labels: Vec<Vec<char>> = Vec::new();
        let mut k: usize = 0;
        while k < order.len()
            invariant
                k <= order@.len(),
                order@.len() == configs@.len(),
                counts@.len() == configs@.len(),
                forall|j: int| 0 <= j < order@.len() ==> order@[j] < configs@.len(),
                sorted@.len() == k,
                labels@.len() == k,
                forall|j: int|
                    0 <= j < k ==> (#[trigger] sorted@[j])@ == configs@[order@[j] as int]@,
                forall|j: int|
                    0 <= j < k ==> (#[trigger] labels@[j])@ == description_of(sorted@[j]@),
            decreases order@.len() - k,
        {
            let idx = order[k];
            let c = clone_config(&configs[idx]);
            let label: &str = match &c.description {
                Some(d) => d.as_str(),
                None => match &c.binary {
                    Some(b) => b.as_str(),
                    None => "unknown",
                },
            };
            let lc = str_chars(label);
            proof {
                assert(lc@ == description_of(c@));
            }
            sorted.push(c);
            labels.push(lc);
            k += 1;
        }
        let empty_q: Vec<char> = Vec::new();
        let md = mode_of_query(empty_q.as_slice(), &settings);
        let ranked = rank(empty_q.as_slice(), &labels);
        let r = QueryEngine {
            configs: sorted,
            labels,
            settings,
            home,
            query: empty_q,
            mode: md,
            selection: 0,
            script_gen: 0,
            currency_gen: 0,
            multi_gen: 0,
            script_loading: false,
            script_items: Vec::new(),
            calc_rows: Vec::new(),
            conv_rows: Vec::new(),
            rate_cache: RateCache::new(),
            mru,
            history,
            nav_stash: None,
            nav_cursor: None,
            ranked,
            cur_dir: None,
            listing: Vec::new(),
            dir_rows: Vec::new(),
            closed: None,
        };
        proof {
            assert(labels_of(r.configs@) =~= r.labels@.map_values(|l: Vec<char>| l@));
            assert(ranked_ok(r.query@, labels_of(r.configs@), r.ranked@));
            if r.total_items() > 0 {
                assert(r.selection < r.total_items());
            }
        }
        r
    }
}

/// Whether a fresh rate is missing for some multi-conversion target.
pub open spec fn multi_missing(
    cache: Seq<(Seq<char>, Seq<char>, u64, u64)>,
    from: Seq<char>,
    currencies: Seq<Seq<char>>,
    now: u64,
) -> bool {
    exists|t: int|
        0 <= t < currencies.len() && #[trigger] currencies[t] != from && cache_lookup_spec(
            cache,
            from,
            currencies[t],
            now,
        ) is None
}

/// What one query dispatch hands back, as a function of the query, the
/// clock, and the state the dispatch started from: the fetch or listing
/// commands the new mode requires, and the rows it can already show.
pub open spec fn dispatch_ok(
    pre: QueryEngine,
    post: QueryEngine,
    qc: Seq<char>,
    now: u64,
    cmds: Seq<Command>,
) -> bool {
    &&& (post.mode == MatchMode::ScriptFilter ==> post.script_loading
        && post.script_items@.len() == 0 && cmds.len() == 1 && (cmds[0] matches
        Command::StartScriptFetch { generation, filter_index, argument } && generation
        == post.script_gen && first_kw(script_keywords(&post.settings), qc) == Some(
        filter_index as int,
    ) && argument@ == crate::websearch::kw_remainder(
        script_keywords(&post.settings)[filter_index as int],
        qc,
    )))
    &&& (post.mode == MatchMode::Calculator ==> cmds.len() == 0 && post.calc_rows@.map_values(
        |r: Vec<char>| r@,
    ) == (match calc_row_spec(qc) {
        Some(row) => seq![row],
        None => Seq::<Seq<char>>::empty(),
    }))
    &&& (post.mode == MatchMode::CurrencyConvert ==> (cmds.len() == 0 <==> cache_lookup_spec(
        pre.rate_cache@,
        parse_explicit_spec(
            qc,
            pre.settings.trigger@,
            pre.settings.default_currency@,
        )->Some_0.from,
        parse_explicit_spec(qc, pre.settings.trigger@, pre.settings.default_currency@)->Some_0.to,
        now,
    ) is Some))
    &&& (post.mode == MatchMode::CurrencyConvert && cmds.len() > 0 ==> cmds.len() == 1 && (
    cmds[0] matches Command::StartRateFetch { generation, base, targets } && generation
        == post.currency_gen && base@ == parse_explicit_spec(
        qc,
        pre.settings.trigger@,
        pre.settings.default_currency@,
    )->Some_0.from && targets@.len() == 1 && targets@[0]@ == parse_explicit_spec(
        qc,
        pre.settings.trigger@,
        pre.settings.default_currency@,
    )->Some_0.to))
    &&& (post.mode == MatchMode::MultiCurrencyConvert ==> (cmds.len() > 0 <==> multi_missing(
        pre.rate_cache@,
        parse_bare_spec(qc, pre.settings.trigger@, pre.settings.default_currency@)->Some_0.from,
        pre.settings.currencies.deep_view(),
        now,
    )))
    &&& (post.mode == MatchMode::MultiCurrencyConvert && cmds.len() > 0 ==> cmds.len() == 1 && (
    cmds[0] matches Command::StartRateFetch { generation, base, targets } && generation
        == post.multi_gen && base@ == parse_bare_spec(
        qc,
        pre.settings.trigger@,
        pre.settings.default_currency@,
    )->Some_0.from && targets.deep_view() == remove_all(
        pre.settings.currencies.deep_view(),
        base@,
    )))
    &&& (post.mode == MatchMode::CurrencyConvert && cmds.len() == 0 ==> post.conv_rows@.map_values(
        |r: Vec<char>| r@,
    ) == conv_row_single(
        parse_explicit_spec(qc, pre.settings.trigger@, pre.settings.default_currency@)->Some_0,
        pre.rate_cache@,
        now,
    ))
    &&& (post.mode == MatchMode::MultiCurrencyConvert && cmds.len() == 0
        ==> post.conv_rows@.map_values(|r: Vec<char>| r@) == conv_rows_multi(
        parse_bare_spec(qc, pre.settings.trigger@, pre.settings.default_currency@)->Some_0.man,
        parse_bare_spec(qc, pre.settings.trigger@, pre.settings.default_currency@)->Some_0.scale,
        parse_bare_spec(qc, pre.settings.trigger@, pre.settings.default_currency@)->Some_0.from,
        pre.settings.currencies.deep_view(),
        pre.rate_cache@,
        now,
    ))
    &&& (post.mode == MatchMode::AppSearch || post.mode == MatchMode::WebSearch || post.mode
        == MatchMode::CurrencyHelp ==> cmds.len() == 0)
    &&& (post.mode == MatchMode::FileBrowser ==> ({
        let dir = fb_dir(expand_home(qc, pre.home@));
        let same = match pre.cur_dir {
            Some(d) => d@ == dir,
            None => false,
        };
        &&& (same ==> cmds.len() == 0 && post.cur_dir == pre.cur_dir && dir_rows_ok(
            rows_view(pre.listing@),
            fb_partial(expand_home(qc, pre.home@)),
            pre.settings.show_hidden,
            rows_view(post.dir_rows@),
        ))
        &&& (!same ==> cmds.len() == 1 && (cmds[0] matches Command::ListDir { path } && path@
            == dir) && (post.cur_dir matches Some(d2) && d2@ == dir) && post.listing@.len() == 0
            && post.dir_rows@.len() == 0)
    }))
}

impl QueryEngine {
    /// Interpret a new query text: recompute the mode, restart the
    /// ranking, raise every request generation (superseding anything
    /// outstanding), and hand back the side effects the new mode needs.
    pub fn set_query(&mut self, qc: Vec<char>, now: u64) -> (cmds: Vec<Command>)
        requires
            old(self).wf(),
        ensures
            final(self).wf(),
            final(self).query@ == qc@,
            final(self).mode == mode_of(qc@, &final(self).settings),
            final(self).settings == old(self).settings,
            final(self).configs == old(self).configs,
            final(self).labels == old(self).labels,
            final(self).home == old(self).home,
            final(self).rate_cache == old(self).rate_cache,
            final(self).selection == 0,
            final(self).script_gen == bump(old(self).script_gen),
            final(self).currency_gen == bump(old(self).currency_gen),
            final(self).multi_gen == bump(old(self).multi_gen),
            final(self).mru == old(self).mru,
            final(self).history == old(self).history,
            final(self).nav_stash == old(self).nav_stash,
            final(self).nav_cursor == old(self).nav_cursor,
            final(self).closed == old(self).closed,
            dispatch_ok(*old(self), *final(self), qc@, now, cmds@),
    {
        let md = mode_of_query(qc.as_slice(), &self.settings);
        self.query = qc;
        self.mode = md;
        self.selection = 0;
        self.script_gen = bump_exec(self.script_gen);
        self.currency_gen = bump_exec(self.currency_gen);
        self.multi_gen = bump_exec(self.multi_gen);
        self.script_loading = false;
        self.script_items = Vec::new();
        self.calc_rows = Vec::new();
        self.conv_rows = Vec::new();
        let ranked = rank(self.query.as_slice(), &self.labels);
        self.ranked = ranked;
        proof {
            assert(labels_of(self.configs@) =~= self.labels@.map_values(|l: Vec<char>| l@));
        }
        let mut cmds: Vec<Command> = Vec::new();
        match self.mode {
            MatchMode::ScriptFilter => {
                match crate::mode::first_script_match(&self.settings, self.query.as_slice()) {
                    Some(fi) => {
                        let kw = str_chars(self.settings.script_filters[fi].keyword.as_str());
                        proof {
                            assert(script_keywords(&self.settings)[fi as int] == kw@);
                            crate::mode::lemma_first_kw_found(
                                script_keywords(&self.settings),
                                self.query@,
                            );
                        }
                        let arg = crate::websearch::kw_remainder_exec(
                            kw.as_slice(),
                            self.query.as_slice(),
                        );
                        self.script_loading = true;
                        cmds.push(
                            Command::StartScriptFetch {
                                generation: self.script_gen,
                                filter_index: fi,
                                argument: crate::text::chars_to_string(arg.as_slice()),
                            },
                        );
                    },
                    None => {
                        proof {
                            assert(false);
                        }
                    },
                }
            },
            MatchMode::Calculator => {
                match calc_row(self.query.as_slice()) {
                    Some(row) => {
                        self.calc_rows = Vec::new();
                        self.calc_rows.push(row);
                        proof {
                            assert(self.calc_rows@.map_values(|r: Vec<char>| r@)
                                =~= seq![calc_row_spec(self.query@)->Some_0]);
                        }
                    },
                    None => {
                        proof {
                            assert(self.calc_rows@.map_values(|r: Vec<char>| r@)
                                =~= Seq::<Seq<char>>::empty());
                        }
                    },
                }
            },
            MatchMode::CurrencyConvert => {
                let trigger = str_chars(self.settings.trigger.as_str());
                let default_cur = str_chars(self.settings.default_currency.as_str());
                match parse_explicit_exec(
                    self.query.as_slice(),
                    trigger.as_slice(),
                    default_cur.as_slice(),
                ) {
                    Some(req) => {
                        match self.rate_cache.lookup(
                            req.from.as_slice(),
                            req.to.as_slice(),
                            now,
                        ) {
                            Some(_) => {
                                let rows = self.build_conversion_rows(now);
                                self.conv_rows = rows;
                            },
                            None => {
                                cmds.push(
                                    Command::StartRateFetch {
                                        generation: self.currency_gen,
                                        base: crate::text::chars_to_string(req.from.as_slice()),
                                        targets: vec_one(
                                            crate::text::chars_to_string(req.to.as_slice()),
                                        ),
                                    },
                                );
                            },
                        }
                    },
                    None => {
                        proof {
                            assert(false);
                        }
                    },
                }
            },
            MatchMode::MultiCurrencyConvert => {
                let trigger = str_chars(self.settings.trigger.as_str());
                let default_cur = str_chars(self.settings.default_currency.as_str());
                match parse_bare_exec(
                    self.query.as_slice(),
                    trigger.as_slice(),
                    default_cur.as_slice(),
                ) {
                    Some((_amount, from)) => {
                        let mut missing = false;
                        let mut t: usize = 0;
                        while t < self.settings.currencies.len()
                            invariant
                                t <= self.settings.currencies@.len(),
                                missing == (exists|j: int|
                                    0 <= j < t && #[trigger] self.settings.currencies.deep_view()[j]
                                        != from@ && cache_lookup_spec(
                                        self.rate_cache@,
                                        from@,
                                        self.settings.currencies.deep_view()[j],
                                        now,
                                    ) is None),
                            decreases self.settings.currencies@.len() - t,
                        {
                            let target = str_chars(self.settings.currencies[t].as_str());
                            proof {
                                assert(self.settings.currencies.deep_view()[t as int] == target@);
                            }
                            if !crate::text::eq_chars(target.as_slice(), from.as_slice()) {
                                if self.rate_cache.lookup(
                                    from.as_slice(),
                                    target.as_slice(),
                                    now,
                                ).is_none() {
                                    missing = true;
                                }
                            }
                            t += 1;
                        }
                        if missing {
                            let targets = targets_without(&self.settings.currencies, from.as_slice());
                            cmds.push(
                                Command::StartRateFetch {
                                    generation: self.multi_gen,
                                    base: crate::text::chars_to_string(from.as_slice()),
                                    targets,
                                },
                            );
                        } else {
                            let rows = self.build_conversion_rows(now);
                            self.conv_rows = rows;
                        }
                    },
                    None => {
                        proof {
                            assert(false);
                        }
                    },
                }
            },
            MatchMode::FileBrowser => {
                let expanded = expand_home_exec(self.query.as_slice(), self.home.as_slice());
                let (dir, partial) = fb_split_exec(expanded.as_slice());
                let same = match &self.cur_dir {
                    Some(d) => crate::text::eq_chars(d.as_slice(), dir.as_slice()),
                    None => false,
                };
                if same {
                    let rows = build_dir_rows(
                        &self.listing,
                        partial.as_slice(),
                        self.settings.show_hidden,
                    );
                    self.dir_rows = rows;
                } else {
                    self.cur_dir = Some(dir.clone());
                    self.listing = Vec::new();
                    self.dir_rows = Vec::new();
                    cmds.push(
                        Command::ListDir { path: crate::text::chars_to_string(dir.as_slice()) },
                    );
                }
            },
            _ => {
            },
        }
        cmds
    }

    /// Interpret a manual edit of the query: besides the dispatch, a
    /// manual edit leaves history navigation.
    pub fn on_query_changed(&mut self, q: &str, now: u64) -> (cmds: Vec<Command>)
        requires
            old(self).wf(),
        ensures
            final(self).wf(),
            final(self).query@ == q@,
            final(self).mode == mode_of(q@, &final(self).settings),
            final(self).settings == old(self).settings,
            final(self).configs == old(self).configs,
            final(self).labels == old(self).labels,
            final(self).selection == 0,
            final(self).script_gen == bump(old(self).script_gen),
            final(self).currency_gen == bump(old(self).currency_gen),
            final(self).multi_gen == bump(old(self).multi_gen),
            final(self).nav_stash is None && final(self).nav_cursor is None,
            final(self).mru == old(self).mru,
            final(self).history == old(self).history,
            final(self).rate_cache == old(self).rate_cache,
            dispatch_ok(*old(self), *final(self), q@, now, cmds@),
    {
        self.nav_stash = None;
        self.nav_cursor = None;
        let qc = crate::text::str_chars(q);
        self.set_query(qc, now)
    }
}

/// A vector of one element.
fn vec_one(s: String) -> (r: Vec<String>)
    ensures
        r@.len() == 1,
        r@[0] == s,
{
    let mut r: Vec<String> = Vec::new();
    r.push(s);
    r
}

/// The configured currencies other than the source, in order.
fn targets_without(currencies: &Vec<String>, from: &[char]) -> (r: Vec<String>)
    ensures
        r.deep_view() == remove_all(currencies.deep_view(), from@),
{
    let ghost cv = currencies.deep_view();
    let mut r: Vec<String> = Vec::new();
    proof {
        assert(cv.subrange(0, 0) =~= Seq::<Seq<char>>::empty());
        assert(r.deep_view() =~= remove_all(cv.subrange(0, 0), from@));
    }
    let mut i: usize = 0;
    while i < currencies.len()
        invariant
            i <= currencies@.len(),
            cv == currencies.deep_view(),
            r.deep_view() == remove_all(cv.subrange(0, i as int), from@),
        decreases currencies@.len() - i,
    {
        proof {
            crate::history::lemma_remove_all_snoc(cv.subrange(0, i as int), cv[i as int], from@);
            assert(cv.subrange(0, i + 1) =~= cv.subrange(0, i as int).push(cv[i as int]));
        }
        let tc = str_chars(currencies[i].as_str());
        proof {
            assert(cv[i as int] == tc@);
        }
        if !crate::text::eq_chars(tc.as_slice(), from) {
            r.push(currencies[i].clone());
            proof {
                assert(r.deep_view() =~= remove_all(cv.subrange(0, i as int), from@).push(
                    cv[i as int],
                ));
            }
        }
        i += 1;
    }
    proof {
        assert(cv.subrange(0, cv.len() as int) =~= cv);
    }
    r
}

/// One more than a generation, stopping at the top.
fn bump_exec(g: u64) -> (r: u64)
    ensures
        r == bump(g),
{
    if g == u64::MAX {
        g
    } else {
        g + 1
    }
}

impl QueryEngine {
    /// Take a directory listing: it is applied only when it answers the
    /// directory currently shown.
    pub fn apply_dir_listing(&mut self, path: &[char], entries: Vec<(Vec<char>, bool)>) -> (
        applied: bool)
        requires
            old(self).wf(),
        ensures
            final(self).wf(),
            applied <==> (old(self).cur_dir matches Some(d) && d@ == path@),
            applied ==> rows_view(final(self).listing@) == rows_view(entries@) && final(self).selection == 0,
            applied ==> dir_rows_ok(
                rows_view(entries@),
                fb_partial(expand_home(old(self).query@, old(self).home@)),
                old(self).settings.show_hidden,
                rows_view(final(self).dir_rows@),
            ),
            !applied ==> *final(self) == *old(self),
            final(self).query == old(self).query,
            final(self).mode == old(self).mode,
            final(self).configs == old(self).configs,
            final(self).labels == old(self).labels,
    {
        let same = match &self.cur_dir {
            Some(d) => crate::text::eq_chars(d.as_slice(), path),
            None => false,
        };
        if !same {
            return false;
        }
        let expanded = expand_home_exec(self.query.as_slice(), self.home.as_slice());
        let (_dir, partial) = fb_split_exec(expanded.as_slice());
        let rows = build_dir_rows(&entries, partial.as_slice(), self.settings.show_hidden);
        self.listing = entries;
        self.dir_rows = rows;
        self.selection = 0;
        true
    }

    /// Step back through the history: the first step stashes the query
    /// and shows the newest entry; later steps show strictly older
    /// entries; past the oldest nothing happens.
    pub fn history_back(&mut self, now: u64) -> (cmds: Vec<Command>)
        requires
            old(self).wf(),
        ensures
            final(self).wf(),
            final(self).configs == old(self).configs,
            final(self).labels == old(self).labels,
            old(self).history@.len() == 0 ==> *final(self) == *old(self) && cmds@.len() == 0,
            old(self).history@.len() > 0 && old(self).nav_cursor is None ==> final(self).nav_cursor
                == Some((old(self).history@.len() - 1) as usize) && final(self).nav_stash is Some
                && final(self).nav_stash->Some_0@ == old(self).query@ && final(self).query@ == old(self).history@.last()
                && dispatch_ok(*old(self), *final(self), old(self).history@.last(), now, cmds@),
            old(self).history@.len() > 0 && old(self).nav_cursor is Some && 0 < old(self).nav_cursor->Some_0 < old(self).history@.len() ==> final(self).nav_cursor == Some(
                (old(self).nav_cursor->Some_0 - 1) as usize,
            ) && final(self).query@ == old(self).history@[old(self).nav_cursor->Some_0 - 1]
                && final(self).nav_stash == old(self).nav_stash && dispatch_ok(
                *old(self),
                *final(self),
                old(self).history@[old(self).nav_cursor->Some_0 - 1],
                now,
                cmds@,
            ),
            old(self).history@.len() > 0 && old(self).nav_cursor == Some(0usize) ==> *final(self)
                == *old(self) && cmds@.len() == 0,
            old(self).history@.len() > 0 && old(self).nav_cursor is Some && old(self).nav_cursor->Some_0 >= old(self).history@.len() ==> *final(self) == *old(self)
                && cmds@.len() == 0,
    {
        let hlen = self.history.len();
        if hlen == 0 {
            return Vec::new();
        }
        match self.nav_cursor {
            None => {
                let stash = clone_chars(&self.query);
                self.nav_stash = Some(stash);
                self.nav_cursor = Some(hlen - 1);
                let item = self.history.item_at(hlen - 1);
                self.set_query(item, now)
            },
            Some(c) => {
                if c == 0 || c >= hlen {
                    return Vec::new();
                }
                self.nav_cursor = Some(c - 1);
                let item = self.history.item_at(c - 1);
                self.set_query(item, now)
            },
        }
    }

    /// Step forward through the history; past the newest entry the
    /// stashed query returns and navigation ends.
    pub fn history_forward(&mut self, now: u64) -> (cmds: Vec<Command>)
        requires
            old(self).wf(),
        ensures
            final(self).wf(),
            final(self).configs == old(self).configs,
            final(self).labels == old(self).labels,
            old(self).nav_cursor is None ==> *final(self) == *old(self) && cmds@.len() == 0,
            old(self).nav_cursor is Some && old(self).nav_cursor->Some_0 + 1 < old(self).history@.len() ==> final(self).nav_cursor == Some(
                (old(self).nav_cursor->Some_0 + 1) as usize,
            ) && final(self).query@ == old(self).history@[old(self).nav_cursor->Some_0 + 1]
                && dispatch_ok(
                *old(self),
                *final(self),
                old(self).history@[old(self).nav_cursor->Some_0 + 1],
                now,
                cmds@,
            ),
            old(self).nav_cursor is Some && old(self).nav_cursor->Some_0 + 1 >= old(self).history@.len() ==> final(self).nav_cursor is None && final(self).nav_stash is None
                && final(self).query@ == (match old(self).nav_stash {
                Some(st) => st@,
                None => Seq::<char>::empty(),
            }) && dispatch_ok(
                *old(self),
                *final(self),
                match old(self).nav_stash {
                    Some(st) => st@,
                    None => Seq::<char>::empty(),
                },
                now,
                cmds@,
            ),
    {
        let hlen = self.history.len();
        match self.nav_cursor {
            None => {
                return Vec::new();
            },
            Some(c) => {
                if c < usize::MAX && c + 1 < hlen {
                    self.nav_cursor = Some(c + 1);
                    let item = self.history.item_at(c + 1);
                    self.set_query(item, now)
                } else {
                    let restored: Vec<char> = match &self.nav_stash {
                        Some(st) => clone_chars(st),
                        None => Vec::new(),
                    };
                    self.nav_cursor = None;
                    self.nav_stash = None;
                    self.set_query(restored, now)
                }
            },
        }
    }
}

impl QueryEngine {
    /// Resolve the selected row: the same flattening order as the
    /// rendering maps the selection to a mode row or a ranked entry.
    /// Launching an entry records its use count and the query history
    /// and ends the session; non-actionable rows do nothing.
    #[verifier::rlimit(60)]
    #[verifier::spinoff_prover]
    pub fn on_submit(&mut self, alt: bool) -> (cmds: Vec<Command>)
        requires
            old(self).wf(),
            old(self).total_items() <= usize::MAX,
        ensures
            final(self).wf(),
            final(self).configs == old(self).configs,
            final(self).labels == old(self).labels,
            final(self).settings == old(self).settings,
            final(self).query == old(self).query,
            old(self).total_items() == 0 ==> *final(self) == *old(self) && cmds@.len() == 0,
            old(self).total_items() > 0 && old(self).selection >= old(self).special_count() ==> ({
                let idx = old(self).ranked@[old(self).selection - old(self).special_count()];
                &&& final(self).mru@ == crate::history::mru_bump_spec(
                    old(self).mru@,
                    labels_of(old(self).configs@)[idx as int],
                )
                &&& final(self).history@ == crate::history::hist_push_spec(
                    old(self).history@,
                    old(self).history.spec_cap(),
                    crate::text::trim_spec(old(self).query@),
                )
                &&& final(self).closed == Some(true)
                &&& cmds@.len() == 4
                &&& (cmds@[0] matches Command::SaveMru { lines } && (exists|
                    es: Seq<(Seq<char>, u32)>,
                    ord: Seq<usize>,
                |
                    #![trigger crate::persist::mru_unparse(es), ord.to_multiset()]
                    lines@ == crate::persist::mru_unparse(es) && ord.len() == final(self).mru@.len() && ord.to_multiset() == ident_seq(
                        final(self).mru@.len(),
                    ).to_multiset() && count_sorted(
                        final(self).mru@.map_values(|e: (Seq<char>, u32)| e.1),
                        ord,
                    ) && es.len() == final(self).mru@.len() && (forall|k: int|
                        0 <= k < es.len() ==> es[k] == final(self).mru@[(
                        #[trigger] ord[k]) as int])))
                &&& (cmds@[1] matches Command::SaveHistory { lines } && lines@
                    == crate::persist::hist_unparse(final(self).history@))
                &&& (cmds@[2] matches Command::Launch { index } && index == idx)
                &&& (cmds@[3] matches Command::Close { submitted } && submitted == true)
            }),
            old(self).total_items() > 0 && old(self).selection < old(self).special_count() && old(self).mode == MatchMode::Calculator ==> final(self).closed == Some(true) && cmds@.len()
                == 3 && (cmds@[0] matches Command::CopyToClipboard { text } && text@ == old(self).calc_rows@[old(self).selection as int]@) && (cmds@[1] matches
                Command::SaveHistory { lines } && lines@ == crate::persist::hist_unparse(
                final(self).history@,
            )) && (cmds@[2] matches Command::Close {
                submitted,
            } && submitted == true),
            old(self).total_items() > 0 && old(self).selection < old(self).special_count() && (old(self).mode == MatchMode::CurrencyConvert || old(self).mode
                == MatchMode::MultiCurrencyConvert) ==> final(self).closed == Some(true)
                && cmds@.len() == 3 && (cmds@[0] matches Command::CopyToClipboard { text } && text@
                == old(self).conv_rows@[old(self).selection as int]@) && (cmds@[1] matches
                Command::SaveHistory { lines } && lines@ == crate::persist::hist_unparse(
                final(self).history@,
            )) && (cmds@[2] matches Command::Close { submitted } && submitted == true),
            old(self).total_items() > 0 && old(self).selection < old(self).special_count() && old(self).mode == MatchMode::CurrencyHelp ==> *final(self) == *old(self) && cmds@.len() == 0,
            old(self).total_items() > 0 && old(self).selection < old(self).special_count()
                && old(self).mode == MatchMode::Calculator ==> final(self).history@
                == crate::history::hist_push_spec(
                old(self).history@,
                old(self).history.spec_cap(),
                crate::text::trim_spec(old(self).query@),
            ),
            old(self).total_items() > 0 && old(self).selection < old(self).special_count()
                && (old(self).mode == MatchMode::CurrencyConvert || old(self).mode
                == MatchMode::MultiCurrencyConvert) ==> final(self).history@
                == crate::history::hist_push_spec(
                old(self).history@,
                old(self).history.spec_cap(),
                crate::text::trim_spec(old(self).query@),
            ),
            old(self).total_items() > 0 && old(self).selection < old(self).special_count()
                && old(self).mode == MatchMode::ScriptFilter ==> ({
                let fi = first_kw(script_keywords(&old(self).settings), old(self).query@)->Some_0;
                let item = old(self).script_items@[old(self).selection as int];
                let value = match item.arg {
                    Some(a) => a@,
                    None => item.title@,
                };
                let def = old(self).settings.script_filters@[fi];
                let tmpl = if alt {
                    match def.secondary_action {
                        Some(t) => Some(t),
                        None => def.action,
                    }
                } else {
                    def.action
                };
                &&& final(self).closed == Some(true)
                &&& final(self).history@ == crate::history::hist_push_spec(
                    old(self).history@,
                    old(self).history.spec_cap(),
                    crate::text::trim_spec(old(self).query@),
                )
                &&& cmds@.len() == 3
                &&& (match tmpl {
                    Some(t) => cmds@[0] matches Command::RunShell { command } && command@
                        == crate::websearch::action_command(t@, value),
                    None => cmds@[0] matches Command::CopyToClipboard { text } && text@ == value,
                })
                &&& (cmds@[1] matches Command::SaveHistory { lines } && lines@
                    == crate::persist::hist_unparse(final(self).history@))
                &&& (cmds@[2] matches Command::Close { submitted } && submitted == true)
            }),
            old(self).total_items() > 0 && old(self).selection < old(self).special_count()
                && old(self).mode == MatchMode::WebSearch ==> ({
                let wi = first_kw(web_keywords(&old(self).settings), old(self).query@)->Some_0;
                let rem = crate::websearch::kw_remainder(
                    web_keywords(&old(self).settings)[wi],
                    old(self).query@,
                );
                &&& (rem.len() == 0 ==> *final(self) == *old(self) && cmds@.len() == 0)
                &&& (rem.len() > 0 ==> final(self).closed == Some(true) && final(self).history@
                    == crate::history::hist_push_spec(
                    old(self).history@,
                    old(self).history.spec_cap(),
                    crate::text::trim_spec(old(self).query@),
                ) && cmds@.len() == 3 && (cmds@[0] matches Command::OpenUrl { url } && url@
                    == crate::websearch::search_url(
                    old(self).settings.web_searches@[wi].url@,
                    rem,
                )) && (cmds@[1] matches Command::SaveHistory { lines } && lines@
                    == crate::persist::hist_unparse(final(self).history@)) && (cmds@[2] matches
                    Command::Close { submitted } && submitted == true))
            }),
            old(self).total_items() > 0 && old(self).selection < old(self).special_count()
                && old(self).mode == MatchMode::FileBrowser ==> ({
                let row = old(self).dir_rows@[old(self).selection as int];
                let prefix = match old(self).cur_dir {
                    Some(d) => d@,
                    None => Seq::<char>::empty(),
                };
                &&& (row.1 ==> final(self).closed == old(self).closed && final(self).history
                    == old(self).history && cmds@.len() == 1 && (cmds@[0] matches
                    Command::SetQuery { text } && text@ == prefix + row.0@ + seq!['/']))
                &&& (!row.1 ==> final(self).closed == Some(true) && final(self).history@
                    == crate::history::hist_push_spec(
                    old(self).history@,
                    old(self).history.spec_cap(),
                    crate::text::trim_spec(old(self).query@),
                ) && cmds@.len() == 3 && (if alt {
                    cmds@[0] matches Command::CopyToClipboard { text } && text@ == prefix + row.0@
                } else {
                    cmds@[0] matches Command::OpenPath { path } && path@ == prefix + row.0@
                }) && (cmds@[1] matches Command::SaveHistory { lines } && lines@
                    == crate::persist::hist_unparse(final(self).history@)) && (cmds@[2] matches
                    Command::Close { submitted } && submitted == true))
            }),
    {
        let total = self.item_count();
        if total == 0 {
            return Vec::new();
        }
        let special: usize = match self.mode {
            MatchMode::AppSearch => 0,
            MatchMode::Calculator => self.calc_rows.len(),
            MatchMode::CurrencyConvert => self.conv_rows.len(),
            MatchMode::MultiCurrencyConvert => self.conv_rows.len(),
            MatchMode::ScriptFilter => self.script_items.len(),
            MatchMode::FileBrowser => self.dir_rows.len(),
            MatchMode::WebSearch => 1,
            MatchMode::CurrencyHelp => 1,
        };
        let mut cmds: Vec<Command> = Vec::new();
        if self.selection >= special {
            let pos = self.selection - special;
            let idx = self.ranked[pos];
            let label = clone_chars(&self.labels[idx]);
            proof {
                assert(label@ == labels_of(self.configs@)[idx as int]);
            }
            self.mru.bump(label.as_slice());
            let qcopy = clone_chars(&self.query);
            self.history.submit(qcopy.as_slice());
            let mru_lines = self.mru.to_lines();
            let hist_lines = self.history.to_lines();
            cmds.push(Command::SaveMru { lines: mru_lines });
            cmds.push(Command::SaveHistory { lines: hist_lines });
            cmds.push(Command::Launch { index: idx });
            cmds.push(Command::Close { submitted: true });
            self.closed = Some(true);
            return cmds;
        }
        match self.mode {
            MatchMode::Calculator => {
                let text = crate::text::chars_to_string(self.calc_rows[self.selection].as_slice());
                let qcopy = clone_chars(&self.query);
                self.history.submit(qcopy.as_slice());
                cmds.push(Command::CopyToClipboard { text });
                cmds.push(Command::SaveHistory { lines: self.history.to_lines() });
                cmds.push(Command::Close { submitted: true });
                self.closed = Some(true);
            },
            MatchMode::CurrencyConvert | MatchMode::MultiCurrencyConvert => {
                let text = crate::text::chars_to_string(self.conv_rows[self.selection].as_slice());
                let qcopy = clone_chars(&self.query);
                self.history.submit(qcopy.as_slice());
                cmds.push(Command::CopyToClipboard { text });
                cmds.push(Command::SaveHistory { lines: self.history.to_lines() });
                cmds.push(Command::Close { submitted: true });
                self.closed = Some(true);
            },
            MatchMode::ScriptFilter => {
                let item = &self.script_items[self.selection];
                let value: String = match &item.arg {
                    Some(a) => a.clone(),
                    None => item.title.clone(),
                };
                match crate::mode::first_script_match(&self.settings, self.query.as_slice()) {
                    Some(fi) => {
                        let template: &Option<String> = if alt {
                            match &self.settings.script_filters[fi].secondary_action {
                                Some(_) => &self.settings.script_filters[fi].secondary_action,
                                None => &self.settings.script_filters[fi].action,
                            }
                        } else {
                            &self.settings.script_filters[fi].action
                        };
                        match template {
                            Some(t) => {
                                let tc = str_chars(t.as_str());
                                let vc = str_chars(value.as_str());
                                let cmd = crate::websearch::action_command_exec(
                                    tc.as_slice(),
                                    vc.as_slice(),
                                );
                                cmds.push(
                                    Command::RunShell {
                                        command: crate::text::chars_to_string(cmd.as_slice()),
                                    },
                                );
                            },
                            None => {
                                cmds.push(Command::CopyToClipboard { text: value });
                            },
                        }
                        let qcopy = clone_chars(&self.query);
                        self.history.submit(qcopy.as_slice());
                        cmds.push(Command::SaveHistory { lines: self.history.to_lines() });
                        cmds.push(Command::Close { submitted: true });
                        self.closed = Some(true);
                    },
                    None => {
                    },
                }
            },
            MatchMode::WebSearch => {
                match crate::mode::first_web_match(&self.settings, self.query.as_slice()) {
                    Some(wi) => {
                        let kw = str_chars(self.settings.web_searches[wi].keyword.as_str());
                        proof {
                            assert(web_keywords(&self.settings)[wi as int] == kw@);
                            crate::mode::lemma_first_kw_found(
                                web_keywords(&self.settings),
                                self.query@,
                            );
                        }
                        let rem = crate::websearch::kw_remainder_exec(
                            kw.as_slice(),
                            self.query.as_slice(),
                        );
                        if rem.len() > 0 {
                            let tmpl = str_chars(self.settings.web_searches[wi].url.as_str());
                            let url = crate::websearch::search_url_exec(
                                tmpl.as_slice(),
                                rem.as_slice(),
                            );
                            let qcopy = clone_chars(&self.query);
                            self.history.submit(qcopy.as_slice());
                            cmds.push(
                                Command::OpenUrl {
                                    url: crate::text::chars_to_string(url.as_slice()),
                                },
                            );
                            cmds.push(Command::SaveHistory { lines: self.history.to_lines() });
                            cmds.push(Command::Close { submitted: true });
                            self.closed = Some(true);
                        }
                    },
                    None => {
                    },
                }
            },
            MatchMode::FileBrowser => {
                let name = clone_chars(&self.dir_rows[self.selection].0);
                let is_dir = self.dir_rows[self.selection].1;
                let mut path: Vec<char> = match &self.cur_dir {
                    Some(d) => clone_chars(d),
                    None => Vec::new(),
                };
                path.append(&mut clone_chars(&name));
                if is_dir {
                    path.push('/');
                    cmds.push(
                        Command::SetQuery { text: crate::text::chars_to_string(path.as_slice()) },
                    );
                } else {
                    let text = crate::text::chars_to_string(path.as_slice());
                    if alt {
                        cmds.push(Command::CopyToClipboard { text });
                    } else {
                        cmds.push(Command::OpenPath { path: text });
                    }
                    let qcopy = clone_chars(&self.query);
                    self.history.submit(qcopy.as_slice());
                    cmds.push(Command::SaveHistory { lines: self.history.to_lines() });
                    cmds.push(Command::Close { submitted: true });
                    self.closed = Some(true);
                }
            },
            _ => {
            },
        }
        cmds
    }
}

} // verus!
