//! Which sources and symbols a NAV reconstruction covers.

use vstd::prelude::*;

use crate::config::{AppConfig, SourceConfig};
use crate::ordered::{lemma_str_lt_irreflexive, lemma_str_lt_total, lemma_str_lt_transitive, str_less, str_lt};
use crate::text::{ascii_upper, chars_of, concat3, owned, str_eq, string_of, to_ascii_upper, trim, trim_chars};

verus! {

/// Why a NAV source selection is refused.
#[derive(Debug, Clone)]
pub enum SourceSelectionError {
    /// An id is requested twice.
    DuplicateIds,
    /// A requested id names no configured source.
    NotConfigured(String),
    /// A requested source is disabled.
    Disabled(String),
}

/// `SourceSelectionError` with its id as a character sequence.
pub enum SelectionErrorView {
    DuplicateIds,
    NotConfigured(Seq<char>),
    Disabled(Seq<char>),
}

impl SourceSelectionError {
    pub open spec fn view(&self) -> SelectionErrorView {
        match self {
            SourceSelectionError::DuplicateIds => SelectionErrorView::DuplicateIds,
            SourceSelectionError::NotConfigured(id) => SelectionErrorView::NotConfigured(id@),
            SourceSelectionError::Disabled(id) => SelectionErrorView::Disabled(id@),
        }
    }

    /// Operator-facing text of the error.
    pub fn message(&self) -> (r: String)
        ensures
            r@ == match self.view() {
                SelectionErrorView::DuplicateIds => "selected source IDs contain duplicates"@,
                SelectionErrorView::NotConfigured(id) => "selected source "@ + id + " is not configured"@,
                SelectionErrorView::Disabled(id) => "selected source "@ + id + " is disabled"@,
            },
    {
        match self {
            SourceSelectionError::DuplicateIds => owned("selected source IDs contain duplicates"),
            SourceSelectionError::NotConfigured(id) => concat3("selected source ", id.as_str(), " is not configured"),
            SourceSelectionError::Disabled(id) => concat3("selected source ", id.as_str(), " is disabled"),
        }
    }
}

/// Some id occurs twice.
pub open spec fn has_repeated_id(ids: Seq<String>) -> bool {
    exists|i: int, j: int| #![trigger ids[i], ids[j]] 0 <= i < j < ids.len() && ids[i]@ == ids[j]@
}

/// `x` is one of the requested ids.
pub open spec fn is_requested(ids: Seq<String>, x: Seq<char>) -> bool {
    exists|i: int| 0 <= i < ids.len() && #[trigger] ids[i]@ == x
}

/// The first configured source with id `id`.
pub open spec fn first_source_with_id(sources: Seq<SourceConfig>, id: Seq<char>) -> Option<SourceConfig>
    decreases sources.len(),
{
    if sources.len() == 0 {
        None
    } else if sources[0].id@ == id {
        Some(sources[0])
    } else {
        first_source_with_id(sources.drop_first(), id)
    }
}

/// Why the requested id `id` cannot be selected, if it cannot.
pub open spec fn id_refusal(sources: Seq<SourceConfig>, id: Seq<char>) -> Option<SelectionErrorView> {
    match first_source_with_id(sources, id) {
        None => Some(SelectionErrorView::NotConfigured(id)),
        Some(s) => if !s.enabled {
            Some(SelectionErrorView::Disabled(id))
        } else {
            None
        },
    }
}

/// A requested id that cannot be selected.
pub open spec fn refused_id(ids: Seq<String>, sources: Seq<SourceConfig>, x: Seq<char>) -> bool {
    is_requested(ids, x) && id_refusal(sources, x) is Some
}

/// A source the selection covers: enabled, and requested unless nothing is.
pub open spec fn source_selected(ids: Seq<String>, s: SourceConfig) -> bool {
    s.enabled && (ids.len() == 0 || is_requested(ids, s.id@))
}

/// The sources selected by `ids`, in configuration order.
pub open spec fn selected_sources(ids: Seq<String>, sources: Seq<SourceConfig>) -> Seq<SourceConfig> {
    sources.filter(|s: SourceConfig| source_selected(ids, s))
}

fn source_with_id<'a>(sources: &'a Vec<SourceConfig>, id: &str) -> (r: Option<&'a SourceConfig>)
    ensures
        r matches Some(s) ==> first_source_with_id(sources@, id@) == Some(*s),
        r is None ==> first_source_with_id(sources@, id@) is None,
{
    let mut i: usize = 0;
    assert(sources@.skip(0) =~= sources@);
    while i < sources.len()
        invariant
            i <= sources@.len(),
            first_source_with_id(sources@, id@) == first_source_with_id(sources@.skip(i as int), id@),
        decreases sources@.len() - i,
    {
        assert(sources@.skip(i as int).drop_first() =~= sources@.skip(i + 1));
        if str_eq(sources[i].id.as_str(), id) {
            return Some(&sources[i]);
        }
        i = i + 1;
    }
    None
}

fn repeated_id(ids: &Vec<String>) -> (r: bool)
    ensures
        r == has_repeated_id(ids@),
{
    let mut j: usize = 0;
    while j < ids.len()
        invariant
            j <= ids@.len(),
            forall|a: int, b: int| 0 <= a < b < j ==> ids@[a]@ != ids@[b]@,
        decreases ids@.len() - j,
    {
        let mut i: usize = 0;
        while i < j
            invariant
                i <= j < ids@.len(),
                forall|a: int| 0 <= a < i ==> ids@[a]@ != ids@[j as int]@,
            decreases j - i,
        {
            if str_eq(ids[i].as_str(), ids[j].as_str()) {
                assert(ids@[i as int]@ == ids@[j as int]@);
                return true;
            }
            i = i + 1;
        }
        j = j + 1;
    }
    false
}

/// The sources a NAV reconstruction covers: every enabled source when no id
/// is requested, else the requested ones. Refused when an id is requested
/// twice, and else for the first requested id in `str` order that names no
/// configured source or a disabled one.
pub fn select_sources<'a>(config: &'a AppConfig, selected_source_ids: &Vec<String>) -> (r: Result<
    Vec<&'a SourceConfig>,
    SourceSelectionError,
>)
    ensures
        (r matches Err(e) && e.view() == SelectionErrorView::DuplicateIds) <==> has_repeated_id(
            selected_source_ids@,
        ),
        !has_repeated_id(selected_source_ids@) ==> (r is Err <==> exists|x: Seq<char>|
            refused_id(selected_source_ids@, config.sources@, x)),
        r matches Err(e) ==> match e.view() {
            SelectionErrorView::DuplicateIds => true,
            SelectionErrorView::NotConfigured(x) => first_refused(selected_source_ids@, config.sources@, x),
            SelectionErrorView::Disabled(x) => first_refused(selected_source_ids@, config.sources@, x),
        },
        r matches Err(e) ==> match e.view() {
            SelectionErrorView::DuplicateIds => true,
            SelectionErrorView::NotConfigured(x) => id_refusal(config.sources@, x) == Some(e.view()),
            SelectionErrorView::Disabled(x) => id_refusal(config.sources@, x) == Some(e.view()),
        },
        r matches Ok(v) ==> v@.len() == selected_sources(selected_source_ids@, config.sources@).len()
            && forall|i: int| 0 <= i < v@.len() ==> *v@[i] == selected_sources(
            selected_source_ids@,
            config.sources@,
        )[i],
{
    if repeated_id(selected_source_ids) {
        return Err(SourceSelectionError::DuplicateIds);
    }
    let ids = selected_source_ids;
    let sources = &config.sources;
    let mut first: Option<SourceSelectionError> = None;
    let mut i: usize = 0;
    while i < ids.len()
        invariant
            i <= ids@.len(),
            scan_ok(ids@, i as int, sources@, opt_view(first)),
        decreases ids@.len() - i,
    {
        let id = ids[i].as_str();
        let refusal = match source_with_id(sources, id) {
            None => Some(SourceSelectionError::NotConfigured(owned(id))),
            Some(s) => if !s.enabled {
                Some(SourceSelectionError::Disabled(owned(id)))
            } else {
                None
            },
        };
        let replace = match &first {
            None => true,
            Some(f) => {
                let current = match f {
                    SourceSelectionError::NotConfigured(x) => x.as_str(),
                    SourceSelectionError::Disabled(x) => x.as_str(),
                    SourceSelectionError::DuplicateIds => id,
                };
                str_less(id, current)
            },
        };
        proof {
            lemma_scan_step(ids@, i as int, sources@, opt_view(first), opt_view(refusal), replace);
        }
        if refusal.is_some() && replace {
            first = refusal;
        }
        i = i + 1;
    }
    match first {
        Some(e) => {
            proof {
                lemma_scan_found(ids@, sources@, e.view());
            }
            return Err(e);
        },
        None => {
            proof {
                assert forall|x: Seq<char>| !refused_id(ids@, sources@, x) by {
                    if is_requested(ids@, x) {
                        let k = choose|k: int| 0 <= k < ids@.len() && #[trigger] ids@[k]@ == x;
                        assert(id_refusal(sources@, ids@[k]@) is None);
                    }
                }
            }
        },
    }
    let mut out: Vec<&'a SourceConfig> = Vec::new();
    let ghost pred = |s: SourceConfig| source_selected(ids@, s);
    let mut j: usize = 0;
    while j < sources.len()
        invariant
            j <= sources@.len(),
            pred == (|s: SourceConfig| source_selected(ids@, s)),
            out@.len() == sources@.take(j as int).filter(pred).len(),
            forall|k: int| 0 <= k < out@.len() ==> *out@[k] == sources@.take(j as int).filter(pred)[k],
        decreases sources@.len() - j,
    {
        proof {
            reveal(Seq::filter);
            assert(sources@.take(j + 1).drop_last() =~= sources@.take(j as int));
        }
        let s = &sources[j];
        let wanted = s.enabled && (ids.len() == 0 || requested_exec(ids, s.id.as_str()));
        if wanted {
            out.push(s);
        }
        j = j + 1;
    }
    assert(sources@.take(sources@.len() as int) =~= sources@);
    Ok(out)
}

fn requested_exec(ids: &Vec<String>, x: &str) -> (r: bool)
    ensures
        r == is_requested(ids@, x@),
{
    let mut i: usize = 0;
    while i < ids.len()
        invariant
            i <= ids@.len(),
            forall|k: int| 0 <= k < i ==> ids@[k]@ != x@,
        decreases ids@.len() - i,
    {
        if str_eq(ids[i].as_str(), x) {
            return true;
        }
        i = i + 1;
    }
    false
}

/// `x` is refused and comes first, in `str` order, among the refused ids.
pub open spec fn first_refused(ids: Seq<String>, sources: Seq<SourceConfig>, x: Seq<char>) -> bool {
    refused_id(ids, sources, x) && forall|y: Seq<char>| #[trigger] refused_id(ids, sources, y) ==> y == x || str_lt(x, y)
}

/// The requested symbols match nothing in the time range.
#[derive(Debug, Clone, Copy, PartialEq, Eq, Structural)]
pub struct NoRequestedSymbols;

impl NoRequestedSymbols {
    /// Operator-facing text of the error.
    pub fn message(&self) -> (r: &'static str)
        ensures
            r@ == "none of the requested symbols exist in the selected time range"@,
    {
        "none of the requested symbols exist in the selected time range"
    }
}

/// The texts of some strings.
pub open spec fn texts(v: Seq<String>) -> Seq<Seq<char>> {
    v.map_values(|s: String| s@)
}

/// A requested symbol as the timeline compares it: trimmed, ASCII
/// uppercase.
pub open spec fn normalized_symbol(s: Seq<char>) -> Seq<char> {
    ascii_upper(trim(s))
}

/// `x` is the normalized, non-empty form of a requested symbol.
pub open spec fn symbol_wanted(requested: Seq<String>, x: Seq<char>) -> bool {
    x.len() > 0 && exists|i: int| 0 <= i < requested.len() && normalized_symbol(#[trigger] requested[i]@) == x
}

/// `x` is one of the symbols of the time range.
pub open spec fn symbol_available(available: Seq<String>, x: Seq<char>) -> bool {
    exists|i: int| 0 <= i < available.len() && #[trigger] available[i]@ == x
}

/// Strictly ascending in `str` order (sorted, without repeats).
pub open spec fn strictly_ascending(v: Seq<Seq<char>>) -> bool {
    forall|i: int, j: int| 0 <= i < j < v.len() ==> str_lt(#[trigger] v[i], #[trigger] v[j])
}

fn normalize_symbol(s: &str) -> (r: String)
    ensures
        r@ == normalized_symbol(s@),
{
    let cs = chars_of(s);
    let t = trim_chars(cs.as_slice());
    string_of(to_ascii_upper(t.as_slice()).as_slice())
}

/// Adds `x` to a strictly ascending list unless it is there.
fn insert_sorted_unique(v: &mut Vec<String>, x: String)
    requires
        strictly_ascending(texts(old(v)@)),
    ensures
        strictly_ascending(texts(final(v)@)),
        forall|y: Seq<char>| texts(final(v)@).contains(y) <==> (texts(old(v)@).contains(y) || y == x@),
{
    let ghost m = texts(v@);
    let mut i: usize = 0;
    while i < v.len() && str_less(v[i].as_str(), x.as_str())
        invariant
            m == texts(v@),
            i <= v@.len(),
            forall|j: int| 0 <= j < i ==> str_lt(#[trigger] m[j], x@),
        decreases v@.len() - i,
    {
        i = i + 1;
    }
    if i < v.len() && str_eq(v[i].as_str(), x.as_str()) {
        assert(m[i as int] == x@);
        return;
    }
    proof {
        if i < v@.len() {
            lemma_str_lt_total(x@, m[i as int]);
        }
    }
    v.insert(i, x);
    proof {
        let n = texts(v@);
        assert(n =~= m.insert(i as int, x@));
        assert forall|a: int, b: int| 0 <= a < b < n.len() implies str_lt(#[trigger] n[a], #[trigger] n[b]) by {
            if b < i {
            } else if b == i {
                assert(n[a] == m[a]);
            } else if a == i {
                assert(n[b] == m[b - 1]);
                if b - 1 > i {
                    lemma_str_lt_transitive(x@, m[i as int], m[b - 1]);
                }
            } else if a < i {
                assert(n[b] == m[b - 1]);
                assert(str_lt(m[a], x@));
                if b - 1 >= i as int {
                    assert(str_lt(m[a], m[b - 1]));
                }
            } else {
                assert(n[a] == m[a - 1] && n[b] == m[b - 1]);
            }
        }
        assert forall|y: Seq<char>| n.contains(y) <==> (m.contains(y) || y == x@) by {
            if n.contains(y) {
                let k = choose|k: int| 0 <= k < n.len() && n[k] == y;
                if k < i {
                    assert(m[k] == y);
                } else if k > i {
                    assert(m[k - 1] == y);
                }
            }
            if m.contains(y) {
                let k = choose|k: int| 0 <= k < m.len() && m[k] == y;
                if k < i {
                    assert(n[k] == y);
                } else {
                    assert(n[k + 1] == y);
                }
            }
            if y == x@ {
                assert(n[i as int] == y);
            }
        }
    }
}

fn contains_text(v: &Vec<String>, x: &str) -> (r: bool)
    ensures
        r == texts(v@).contains(x@),
{
    let mut i: usize = 0;
    while i < v.len()
        invariant
            i <= v@.len(),
            forall|k: int| 0 <= k < i ==> v@[k]@ != x@,
        decreases v@.len() - i,
    {
        if str_eq(v[i].as_str(), x) {
            assert(texts(v@)[i as int] == x@);
            return true;
        }
        i = i + 1;
    }
    proof {
        if texts(v@).contains(x@) {
            let k = choose|k: int| 0 <= k < texts(v@).len() && texts(v@)[k] == x@;
            assert(v@[k]@ == x@);
        }
    }
    false
}

/// The symbols a NAV timeline shows: with no (non-blank) symbol requested,
/// every symbol of the time range as given; else the requested ones, trimmed
/// and uppercased, that the range has, sorted in `str` order without
/// repeats. Refused when none of them is there but the range has symbols.
pub fn select_timeline_symbols(available_symbols: &Vec<String>, requested_symbols: Vec<String>) -> (r: Result<
    Vec<String>,
    NoRequestedSymbols,
>)
    ensures
        (forall|x: Seq<char>| !symbol_wanted(requested_symbols@, x)) ==> (r matches Ok(v) && texts(v@) == texts(
            available_symbols@,
        )),
        (exists|x: Seq<char>| symbol_wanted(requested_symbols@, x)) ==> {
            &&& r is Err <==> (available_symbols@.len() > 0 && forall|x: Seq<char>|
                !(symbol_wanted(requested_symbols@, x) && symbol_available(available_symbols@, x)))
            &&& r matches Ok(v) ==> strictly_ascending(texts(v@)) && forall|x: Seq<char>| texts(v@).contains(x) <==> (
                symbol_wanted(requested_symbols@, x) && symbol_available(available_symbols@, x))
        },
{
    let mut requested: Vec<String> = Vec::new();
    let mut i: usize = 0;
    while i < requested_symbols.len()
        invariant
            i <= requested_symbols@.len(),
            strictly_ascending(texts(requested@)),
            forall|x: Seq<char>| texts(requested@).contains(x) <==> (x.len() > 0 && exists|k: int| 0 <= k < i
                && normalized_symbol(#[trigger] requested_symbols@[k]@) == x),
        decreases requested_symbols@.len() - i,
    {
        let symbol = normalize_symbol(requested_symbols[i].as_str());
        if symbol.as_str().unicode_len() > 0 {
            insert_sorted_unique(&mut requested, symbol);
        }
        proof {
            assert forall|x: Seq<char>| texts(requested@).contains(x) <==> (x.len() > 0 && exists|k: int| 0 <= k < i + 1
                && normalized_symbol(#[trigger] requested_symbols@[k]@) == x) by {
                if x.len() > 0 && normalized_symbol(requested_symbols@[i as int]@) == x {
                    assert(0 <= i < i + 1);
                }
            }
        }
        i = i + 1;
    }
    if requested.len() == 0 {
        proof {
            assert forall|x: Seq<char>| !symbol_wanted(requested_symbols@, x) by {
                if symbol_wanted(requested_symbols@, x) {
                    assert(!texts(requested@).contains(x));
                }
            }
        }
        let mut all: Vec<String> = Vec::new();
        let mut j: usize = 0;
        while j < available_symbols.len()
            invariant
                j <= available_symbols@.len(),
                texts(all@) == texts(available_symbols@).take(j as int),
            decreases available_symbols@.len() - j,
        {
            let c = available_symbols[j].clone();
            let ghost prev = all@;
            assert(texts(prev).len() == prev.len());
            assert(prev.len() == j);
            all.push(c);
            j = j + 1;
            proof {
                assert(all@ == prev.push(c));
                assert forall|k: int| 0 <= k < j implies #[trigger] texts(all@)[k] == texts(available_symbols@)[k] by {
                    if k < j - 1 {
                        assert(all@[k] == prev[k]);
                        assert(texts(prev)[k] == texts(available_symbols@).take(j - 1)[k]);
                    }
                }
                assert(texts(all@) =~= texts(available_symbols@).take(j as int));
            }
        }
        assert(texts(available_symbols@).take(available_symbols@.len() as int) =~= texts(available_symbols@));
        return Ok(all);
    }
    proof {
        let w = texts(requested@)[0];
        assert(texts(requested@).contains(w));
        assert(symbol_wanted(requested_symbols@, w));
    }
    let mut selected: Vec<String> = Vec::new();
    let mut j: usize = 0;
    while j < requested.len()
        invariant
            j <= requested@.len(),
            strictly_ascending(texts(requested@)),
            texts(selected@) == texts(requested@).take(j as int).filter(|x: Seq<char>| symbol_available(available_symbols@, x)),
        decreases requested@.len() - j,
    {
        proof {
            reveal(Seq::filter);
            assert(texts(requested@).take(j + 1).drop_last() =~= texts(requested@).take(j as int));
        }
        let keep = contains_text(available_symbols, requested[j].as_str());
        proof {
            assert(keep == symbol_available(available_symbols@, requested@[j as int]@)) by {
                if keep {
                    let k = choose|k: int| 0 <= k < texts(available_symbols@).len() && texts(available_symbols@)[k] == requested@[j as int]@;
                    assert(available_symbols@[k]@ == requested@[j as int]@);
                }
                if symbol_available(available_symbols@, requested@[j as int]@) {
                    let k = choose|k: int| 0 <= k < available_symbols@.len() && #[trigger] available_symbols@[k]@ == requested@[j as int]@;
                    assert(texts(available_symbols@)[k] == requested@[j as int]@);
                }
            }
        }
        if keep {
            let c = requested[j].clone();
            assert(c@ == requested@[j as int]@);
            selected.push(c);
            proof {
                assert(texts(selected@) =~= texts(requested@).take(j as int).filter(|x: Seq<char>| symbol_available(available_symbols@, x)).push(requested@[j as int]@));
            }
        }
        j = j + 1;
    }
    proof {
        let p = |x: Seq<char>| symbol_available(available_symbols@, x);
        let all = texts(requested@);
        assert(all.take(all.len() as int) =~= all);
        lemma_filter_ascending(all, p);
        assert forall|x: Seq<char>| texts(selected@).contains(x) <==> (symbol_wanted(requested_symbols@, x)
            && symbol_available(available_symbols@, x)) by {
            lemma_filter_contains_iff(all, p, x);
        }
    }
    if selected.len() == 0 && available_symbols.len() > 0 {
        proof {
            assert forall|x: Seq<char>| !(symbol_wanted(requested_symbols@, x) && symbol_available(available_symbols@, x)) by {
                if symbol_wanted(requested_symbols@, x) && symbol_available(available_symbols@, x) {
                    assert(texts(selected@).contains(x));
                }
            }
        }
        return Err(NoRequestedSymbols);
    }
    proof {
        if available_symbols@.len() > 0 {
            let w = texts(selected@)[0];
            assert(texts(selected@).contains(w));
        }
    }
    Ok(selected)
}

proof fn lemma_filter_contains_iff(s: Seq<Seq<char>>, p: spec_fn(Seq<char>) -> bool, x: Seq<char>)
    ensures
        s.filter(p).contains(x) <==> (s.contains(x) && p(x)),
{
    if s.filter(p).contains(x) {
        let k = choose|k: int| 0 <= k < s.filter(p).len() && s.filter(p)[k] == x;
        s.lemma_filter_pred(p, k);
        s.lemma_filter_contains_rev(p, x);
    }
    if s.contains(x) && p(x) {
        let k = choose|k: int| 0 <= k < s.len() && s[k] == x;
        s.lemma_filter_contains(p, k);
    }
}

proof fn lemma_filter_ascending(s: Seq<Seq<char>>, p: spec_fn(Seq<char>) -> bool)
    requires
        strictly_ascending(s),
    ensures
        strictly_ascending(s.filter(p)),
    decreases s.len(),
{
    reveal(Seq::filter);
    if s.len() > 0 {
        let init = s.drop_last();
        assert(strictly_ascending(init)) by {
            assert forall|i: int, j: int| 0 <= i < j < init.len() implies str_lt(#[trigger] init[i], #[trigger] init[j]) by {
                assert(str_lt(s[i], s[j]));
            }
        }
        lemma_filter_ascending(init, p);
        let f = init.filter(p);
        if p(s.last()) {
            assert forall|i: int| 0 <= i < f.len() implies str_lt(#[trigger] f[i], s.last()) by {
                lemma_filter_contains_iff(init, p, f[i]);
                assert(f.contains(f[i]));
                let k = choose|k: int| 0 <= k < init.len() && init[k] == f[i];
                assert(str_lt(s[k], s[s.len() - 1]));
            }
            let g = f.push(s.last());
            assert forall|i: int, j: int| 0 <= i < j < g.len() implies str_lt(#[trigger] g[i], #[trigger] g[j]) by {
                if j < f.len() {
                    assert(g[i] == f[i] && g[j] == f[j]);
                } else {
                    assert(g[i] == f[i]);
                }
            }
        }
    }
}

/// `x` is refused and first among the refused ids of `ids[..n]`.
spec fn first_refused_among(ids: Seq<String>, n: int, sources: Seq<SourceConfig>, x: Seq<char>) -> bool {
    &&& exists|k: int| 0 <= k < n && #[trigger] ids[k]@ == x
    &&& id_refusal(sources, x) is Some
    &&& forall|k: int| 0 <= k < n && id_refusal(sources, #[trigger] ids[k]@) is Some ==> ids[k]@ == x || str_lt(x, ids[k]@)
}

spec fn opt_view(o: Option<SourceSelectionError>) -> Option<SelectionErrorView> {
    match o {
        Some(e) => Some(e.view()),
        None => None,
    }
}

spec fn error_id(e: SelectionErrorView) -> Seq<char> {
    match e {
        SelectionErrorView::NotConfigured(x) => x,
        SelectionErrorView::Disabled(x) => x,
        SelectionErrorView::DuplicateIds => Seq::empty(),
    }
}

/// After scanning `ids[..n]`: `first` is the refusal of the first refused
/// id in `str` order, or there is none.
spec fn scan_ok(ids: Seq<String>, n: int, sources: Seq<SourceConfig>, first: Option<SelectionErrorView>) -> bool {
    match first {
        Some(e) => !(e is DuplicateIds) && first_refused_among(ids, n, sources, error_id(e))
            && id_refusal(sources, error_id(e)) == Some(e),
        None => forall|k: int| 0 <= k < n ==> id_refusal(sources, #[trigger] ids[k]@) is None,
    }
}

proof fn lemma_scan_step(
    ids: Seq<String>,
    i: int,
    sources: Seq<SourceConfig>,
    first: Option<SelectionErrorView>,
    refusal: Option<SelectionErrorView>,
    replace: bool,
)
    requires
        0 <= i < ids.len(),
        scan_ok(ids, i, sources, first),
        refusal == id_refusal(sources, ids[i]@),
        first matches Some(e) ==> replace == str_lt(ids[i]@, error_id(e)),
        first is None ==> replace,
    ensures
        scan_ok(ids, i + 1, sources, if refusal is Some && replace { refusal } else { first }),
{
    let x = ids[i]@;
    match refusal {
        None => {},
        Some(r) => {
            assert(error_id(r) == x);
            match first {
                None => {
                    assert(ids[i]@ == x);
                },
                Some(e) => {
                    let old_x = error_id(e);
                    if replace {
                        assert(ids[i]@ == x);
                        assert forall|k: int| 0 <= k < i + 1 && id_refusal(sources, #[trigger] ids[k]@) is Some implies ids[k]@
                            == x || str_lt(x, ids[k]@) by {
                            if k < i && ids[k]@ != old_x {
                                lemma_str_lt_transitive(x, old_x, ids[k]@);
                            }
                        }
                    } else {
                        lemma_str_lt_total(x, old_x);
                    }
                },
            }
        },
    }
}

proof fn lemma_scan_found(ids: Seq<String>, sources: Seq<SourceConfig>, e: SelectionErrorView)
    requires
        scan_ok(ids, ids.len() as int, sources, Some(e)),
    ensures
        first_refused(ids, sources, error_id(e)),
        error_id(e) == match e {
            SelectionErrorView::NotConfigured(x) => x,
            SelectionErrorView::Disabled(x) => x,
            SelectionErrorView::DuplicateIds => Seq::empty(),
        },
{
    let x = error_id(e);
    assert forall|y: Seq<char>| #[trigger] refused_id(ids, sources, y) implies y == x || str_lt(x, y) by {
        let k = choose|k: int| 0 <= k < ids.len() && #[trigger] ids[k]@ == y;
        assert(id_refusal(sources, ids[k]@) is Some);
    }
}

} // verus!
