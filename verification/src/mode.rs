//! The query's interpretation mode: the fixed priority order that picks
//! exactly one mode for any query, and the addon settings it draws on.

use vstd::prelude::*;
use crate::calc::calc_gate;
use crate::calc::calc_gate_exec;
use crate::currency::is_trigger_help;
use crate::currency::is_trigger_help_exec;
use crate::currency::parse_bare_exec;
use crate::currency::parse_bare_spec;
use crate::currency::parse_explicit_exec;
use crate::currency::parse_explicit_spec;
use crate::text::eq_chars;
use crate::text::starts_with;
use crate::text::starts_with_chars;
use crate::text::str_chars;

verus! {

/// One script filter: an external program answering queries under a
/// keyword.
pub struct ScriptFilterDef {
    pub name: String,
    pub command: String,
    pub args: Vec<String>,
    pub keyword: String,
    pub icon: Option<String>,
    pub action: Option<String>,
    pub secondary_action: Option<String>,
}

/// One web search: a keyword routing to a URL template.
pub struct WebSearchDef {
    pub name: String,
    pub keyword: String,
    pub url: String,
    pub icon: Option<String>,
}

/// The addon configuration the engine works under.
pub struct AddonSettings {
    pub trigger: String,
    pub default_currency: String,
    pub currencies: Vec<String>,
    pub script_filters: Vec<ScriptFilterDef>,
    pub web_searches: Vec<WebSearchDef>,
    pub show_hidden: bool,
    pub history_cap: usize,
}

/// The script filter keywords, in configuration order.
pub open spec fn script_keywords(s: &AddonSettings) -> Seq<Seq<char>> {
    s.script_filters@.map_values(|d: ScriptFilterDef| d.keyword@)
}

/// The web search keywords, in configuration order.
pub open spec fn web_keywords(s: &AddonSettings) -> Seq<Seq<char>> {
    s.web_searches@.map_values(|d: WebSearchDef| d.keyword@)
}

/// Whether a keyword claims the query: the query is the keyword itself,
/// or continues it with a space.
pub open spec fn kw_matches(kw: Seq<char>, q: Seq<char>) -> bool {
    kw.len() > 0 && (q == kw || starts_with(q, kw + seq![' ']))
}

/// The first keyword claiming the query, in configuration order.
pub open spec fn first_kw(kws: Seq<Seq<char>>, q: Seq<char>) -> Option<int>
    decreases kws.len(),
{
    if kws.len() == 0 {
        None
    } else if kw_matches(kws[0], q) {
        Some(0)
    } else {
        match first_kw(kws.drop_first(), q) {
            Some(i) => Some(i + 1),
            None => None,
        }
    }
}

/// `first_kw` is pinned down by a witness position.
pub proof fn lemma_first_kw_at(kws: Seq<Seq<char>>, q: Seq<char>, k: int)
    requires
        0 <= k <= kws.len(),
        forall|j: int| 0 <= j < k ==> !kw_matches(#[trigger] kws[j], q),
        k < kws.len() ==> kw_matches(kws[k], q),
    ensures
        k < kws.len() ==> first_kw(kws, q) == Some(k),
        k == kws.len() ==> first_kw(kws, q) is None,
    decreases kws.len(),
{
    if kws.len() > 0 {
        if k == 0 {
        } else {
            lemma_first_kw_at(kws.drop_first(), q, k - 1);
            assert(forall|j: int|
                0 <= j < k - 1 ==> kws.drop_first()[j] == kws[j + 1] && !kw_matches(
                    #[trigger] kws.drop_first()[j],
                    q,
                ));
        }
    }
}

/// What a found keyword position means.
pub proof fn lemma_first_kw_found(kws: Seq<Seq<char>>, q: Seq<char>)
    ensures
        match first_kw(kws, q) {
            Some(i) => 0 <= i < kws.len() && kw_matches(kws[i], q),
            None => true,
        },
    decreases kws.len(),
{
    if kws.len() > 0 && !kw_matches(kws[0], q) {
        lemma_first_kw_found(kws.drop_first(), q);
    }
}

/// Test whether a keyword claims the query.
pub fn kw_matches_exec(kw: &[char], q: &[char]) -> (r: bool)
    ensures
        r == kw_matches(kw@, q@),
{
    if kw.len() == 0 {
        return false;
    }
    if eq_chars(q, kw) {
        return true;
    }
    let mut kwsp: Vec<char> = Vec::new();
    kwsp.extend_from_slice(kw);
    kwsp.push(' ');
    proof {
        assert(kwsp@ =~= kw@ + seq![' ']);
    }
    starts_with_chars(q, kwsp.as_slice())
}

/// Find the first script filter whose keyword claims the query.
pub fn first_script_match(s: &AddonSettings, q: &[char]) -> (r: Option<usize>)
    ensures
        match r {
            Some(i) => first_kw(script_keywords(s), q@) == Some(i as int) && i
                < s.script_filters@.len(),
            None => first_kw(script_keywords(s), q@) is None,
        },
{
    let mut i: usize = 0;
    while i < s.script_filters.len()
        invariant
            i <= s.script_filters@.len(),
            forall|j: int| 0 <= j < i ==> !kw_matches(#[trigger] script_keywords(s)[j], q@),
        decreases s.script_filters@.len() - i,
    {
        let kw = str_chars(s.script_filters[i].keyword.as_str());
        proof {
            assert(script_keywords(s)[i as int] == s.script_filters@[i as int].keyword@);
        }
        if kw_matches_exec(kw.as_slice(), q) {
            proof {
                lemma_first_kw_at(script_keywords(s), q@, i as int);
            }
            return Some(i);
        }
        i += 1;
    }
    proof {
        lemma_first_kw_at(script_keywords(s), q@, s.script_filters@.len() as int);
    }
    None
}

/// Find the first web search whose keyword claims the query.
pub fn first_web_match(s: &AddonSettings, q: &[char]) -> (r: Option<usize>)
    ensures
        match r {
            Some(i) => first_kw(web_keywords(s), q@) == Some(i as int) && i
                < s.web_searches@.len(),
            None => first_kw(web_keywords(s), q@) is None,
        },
{
    let mut i: usize = 0;
    while i < s.web_searches.len()
        invariant
            i <= s.web_searches@.len(),
            forall|j: int| 0 <= j < i ==> !kw_matches(#[trigger] web_keywords(s)[j], q@),
        decreases s.web_searches@.len() - i,
    {
        let kw = str_chars(s.web_searches[i].keyword.as_str());
        proof {
            assert(web_keywords(s)[i as int] == s.web_searches@[i as int].keyword@);
        }
        if kw_matches_exec(kw.as_slice(), q) {
            proof {
                lemma_first_kw_at(web_keywords(s), q@, i as int);
            }
            return Some(i);
        }
        i += 1;
    }
    proof {
        lemma_first_kw_at(web_keywords(s), q@, s.web_searches@.len() as int);
    }
    None
}

/// Whether the query asks for the file browser: an absolute path, the
/// home sign, or a home-relative path.
pub open spec fn is_file_browser_query(q: Seq<char>) -> bool {
    starts_with(q, "/"@) || q == "~"@ || starts_with(q, "~/"@)
}

/// Test for a file browser query.
pub fn is_file_browser_query_exec(q: &[char]) -> (r: bool)
    ensures
        r == is_file_browser_query(q@),
{
    starts_with_chars(q, str_chars("/").as_slice()) || eq_chars(q, str_chars("~").as_slice())
        || starts_with_chars(q, str_chars("~/").as_slice())
}

/// The interpretation of one query; exactly one mode holds.
#[derive(Clone, Copy, PartialEq, Eq, Structural, Debug)]
pub enum MatchMode {
    AppSearch,
    Calculator,
    CurrencyConvert,
    MultiCurrencyConvert,
    ScriptFilter,
    FileBrowser,
    WebSearch,
    CurrencyHelp,
}

/// The mode a query selects, by the fixed priority order: file browser,
/// then script filters, then web searches, then the currency help row,
/// then explicit conversion, then bare-amount conversion, then the
/// calculator, and plain search last.
pub open spec fn mode_of(q: Seq<char>, s: &AddonSettings) -> MatchMode {
    if is_file_browser_query(q) {
        MatchMode::FileBrowser
    } else if first_kw(script_keywords(s), q) is Some {
        MatchMode::ScriptFilter
    } else if first_kw(web_keywords(s), q) is Some {
        MatchMode::WebSearch
    } else if is_trigger_help(q, s.trigger@) {
        MatchMode::CurrencyHelp
    } else if parse_explicit_spec(q, s.trigger@, s.default_currency@) is Some {
        MatchMode::CurrencyConvert
    } else if parse_bare_spec(q, s.trigger@, s.default_currency@) is Some && s.currencies@.len()
        >= 2 {
        MatchMode::MultiCurrencyConvert
    } else if calc_gate(q) {
        MatchMode::Calculator
    } else {
        MatchMode::AppSearch
    }
}

/// Compute the mode of a query.
pub fn mode_of_query(q: &[char], s: &AddonSettings) -> (r: MatchMode)
    ensures
        r == mode_of(q@, s),
{
    if is_file_browser_query_exec(q) {
        return MatchMode::FileBrowser;
    }
    if first_script_match(s, q).is_some() {
        return MatchMode::ScriptFilter;
    }
    if first_web_match(s, q).is_some() {
        return MatchMode::WebSearch;
    }
    let trigger = str_chars(s.trigger.as_str());
    let default_cur = str_chars(s.default_currency.as_str());
    if is_trigger_help_exec(q, trigger.as_slice()) {
        return MatchMode::CurrencyHelp;
    }
    if parse_explicit_exec(q, trigger.as_slice(), default_cur.as_slice()).is_some() {
        return MatchMode::CurrencyConvert;
    }
    if parse_bare_exec(q, trigger.as_slice(), default_cur.as_slice()).is_some()
        && s.currencies.len() >= 2 {
        return MatchMode::MultiCurrencyConvert;
    }
    if calc_gate_exec(q) {
        return MatchMode::Calculator;
    }
    MatchMode::AppSearch
}

/// Law: for every query exactly one mode is active, and it is the first
/// of the priority order whose gate holds; each mode is characterised by
/// its own gate and the failure of all higher-priority gates.
pub proof fn lemma_mode_priority(q: Seq<char>, s: &AddonSettings)
    ensures
        mode_of(q, s) == MatchMode::FileBrowser <==> is_file_browser_query(q),
        mode_of(q, s) == MatchMode::ScriptFilter <==> !is_file_browser_query(q) && first_kw(
            script_keywords(s),
            q,
        ) is Some,
        mode_of(q, s) == MatchMode::WebSearch <==> !is_file_browser_query(q) && first_kw(
            script_keywords(s),
            q,
        ) is None && first_kw(web_keywords(s), q) is Some,
        mode_of(q, s) == MatchMode::CurrencyHelp <==> !is_file_browser_query(q) && first_kw(
            script_keywords(s),
            q,
        ) is None && first_kw(web_keywords(s), q) is None && is_trigger_help(q, s.trigger@),
        mode_of(q, s) == MatchMode::CurrencyConvert <==> !is_file_browser_query(q) && first_kw(
            script_keywords(s),
            q,
        ) is None && first_kw(web_keywords(s), q) is None && !is_trigger_help(q, s.trigger@)
            && parse_explicit_spec(q, s.trigger@, s.default_currency@) is Some,
        mode_of(q, s) == MatchMode::MultiCurrencyConvert <==> !is_file_browser_query(q)
            && first_kw(script_keywords(s), q) is None && first_kw(web_keywords(s), q) is None
            && !is_trigger_help(q, s.trigger@) && parse_explicit_spec(
            q,
            s.trigger@,
            s.default_currency@,
        ) is None && parse_bare_spec(q, s.trigger@, s.default_currency@) is Some
            && s.currencies@.len() >= 2,
        mode_of(q, s) == MatchMode::Calculator <==> !is_file_browser_query(q) && first_kw(
            script_keywords(s),
            q,
        ) is None && first_kw(web_keywords(s), q) is None && !is_trigger_help(q, s.trigger@)
            && parse_explicit_spec(q, s.trigger@, s.default_currency@) is None && !(
        parse_bare_spec(q, s.trigger@, s.default_currency@) is Some && s.currencies@.len() >= 2)
            && calc_gate(q),
        mode_of(q, s) == MatchMode::AppSearch <==> !is_file_browser_query(q) && first_kw(
            script_keywords(s),
            q,
        ) is None && first_kw(web_keywords(s), q) is None && !is_trigger_help(q, s.trigger@)
            && parse_explicit_spec(q, s.trigger@, s.default_currency@) is None && !(
        parse_bare_spec(q, s.trigger@, s.default_currency@) is Some && s.currencies@.len() >= 2)
            && !calc_gate(q),
{
}

} // verus!
