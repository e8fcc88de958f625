//! The filter engine: identifier predicates and the regex pattern matcher.

use vstd::prelude::*;
use vstd::string::StrSliceExecFns;
use crate::dlt::payload::{Value, ValueModel};
use crate::dlt::{msg_model, DltError, Message, MessageModel};

verus! {

#[verifier::external_type_specification]
#[verifier::external_body]
pub struct ExRegex(regex::Regex);

#[verifier::external_type_specification]
#[verifier::external_body]
pub struct ExRegexSet(regex::RegexSet);

/// Whether a single regular expression source compiles.
pub uninterp spec fn re_valid(pattern: Seq<char>) -> bool;

/// Whether a set of regular expression sources compiles as one set.
pub uninterp spec fn re_set_valid(patterns: Seq<Seq<char>>) -> bool;

/// Whether a compiled pattern matches somewhere in the text.
pub uninterp spec fn re_matches(pattern: Seq<char>, text: Seq<char>) -> bool;

/// The named capture groups that participate when the pattern matches the
/// text: (group name, matched fragment) pairs in group-index order.
pub uninterp spec fn re_caps(pattern: Seq<char>, text: Seq<char>) -> Seq<(Seq<char>, Seq<char>)>;

/// Relies on `regex::Regex::new`: whether a pattern compiles depends on
/// the pattern text alone.
#[verifier::external_body]
fn regex_new(pattern: &str) -> (r: Option<regex::Regex>)
    ensures
        r is Some <==> re_valid(pattern@),
{
    regex::Regex::new(pattern).ok()
}

/// Relies on `regex::RegexSet::new`: whether a pattern set compiles
/// depends on the pattern texts alone.
#[verifier::external_body]
fn regex_set_new(patterns: &Vec<String>) -> (r: Option<regex::RegexSet>)
    ensures
        r is Some <==> re_set_valid(patterns.deep_view()),
{
    regex::RegexSet::new(patterns.iter().map(|p| p.as_str())).ok()
}

/// A compiled pattern filter: the regex set answers "does any pattern
/// match?", and the parallel per-pattern regexes expose capture groups.
/// Both are built from `sources` in the same order.
pub struct Pattern {
    sources: Vec<String>,
    regex_set: regex::RegexSet,
    regexes: Vec<regex::Regex>,
}

/// One named capture: the group's name and the fragment it matched.
pub struct Capture {
    pub name: String,
    pub value: String,
}

impl View for Capture {
    type V = (Seq<char>, Seq<char>);

    open spec fn view(&self) -> (Seq<char>, Seq<char>) {
        (self.name@, self.value@)
    }
}

impl DeepView for Capture {
    type V = (Seq<char>, Seq<char>);

    open spec fn deep_view(&self) -> (Seq<char>, Seq<char>) {
        self.view()
    }
}

/// Relies on `regex::RegexSet::matches`: the returned indices are
/// ascending and are exactly the member patterns that match the text,
/// each matching as its standalone `regex::Regex` would. The set held by
/// a `Pattern` is always the compiled form of its `sources`, because
/// `Pattern::from` is the only constructor.
#[verifier::external_body]
fn set_match_indices(p: &Pattern, text: &str) -> (r: Vec<usize>)
    ensures
        forall|j: int, k: int| 0 <= j < k < r@.len() ==> r@[j] < r@[k],
        forall|j: int| 0 <= j < r@.len() ==> r@[j] < p.sources@.len(),
        forall|i: int|
            0 <= i < p.sources@.len() ==> ((exists|j: int| 0 <= j < r@.len() && r@[j] == i)
                <==> re_matches(p.sources.deep_view()[i], text@)),
{
    p.regex_set.matches(text).into_iter().collect()
}

/// Relies on `regex::Regex::captures` on the `i`th compiled pattern: it
/// returns a capture set exactly when the pattern matches, and the named
/// groups that participate depend on the pattern and text alone. The
/// `i`th regex is always compiled from the `i`th source, because
/// `Pattern::from` is the only constructor.
#[verifier::external_body]
fn captures_at(p: &Pattern, i: usize, text: &str) -> (r: Option<Vec<Capture>>)
    requires
        i < p.sources@.len(),
    ensures
        r is Some <==> re_matches(p.sources.deep_view()[i as int], text@),
        r matches Some(c) ==> c.deep_view() == re_caps(p.sources.deep_view()[i as int], text@),
{
    p.regexes[i].captures(text).map(|caps| {
        let mut out = Vec::new();
        for name in p.regexes[i].capture_names().flatten() {
            if let Some(m) = caps.name(name) {
                out.push(Capture { name: name.to_string(), value: m.as_str().to_string() });
            }
        }
        out
    })
}

/// The capture bundles of the patterns from index `i` on that match the
/// text, in pattern order.
pub open spec fn bundles_for(sources: Seq<Seq<char>>, text: Seq<char>, i: int) -> Seq<
    Seq<(Seq<char>, Seq<char>)>,
>
    decreases sources.len() - i,
{
    if !(0 <= i < sources.len()) {
        Seq::empty()
    } else if re_matches(sources[i], text) {
        seq![re_caps(sources[i], text)] + bundles_for(sources, text, i + 1)
    } else {
        bundles_for(sources, text, i + 1)
    }
}

/// No pattern from index `i` on matches the text exactly when the bundle
/// list from `i` on is empty.
pub proof fn lemma_bundles_empty(sources: Seq<Seq<char>>, text: Seq<char>, i: int)
    requires
        0 <= i,
    ensures
        bundles_for(sources, text, i).len() == 0 <==> (forall|k: int|
            i <= k < sources.len() ==> !re_matches(sources[k], text)),
    decreases sources.len() - i,
{
    if 0 <= i < sources.len() {
        lemma_bundles_empty(sources, text, i + 1);
    }
}

impl Pattern {
    /// The source texts the patterns were compiled from.
    pub closed spec fn spec_sources(&self) -> Seq<Seq<char>> {
        self.sources.deep_view()
    }

    /// Compiles the expressions into a set and into parallel standalone
    /// regexes, in the same order.
    pub fn from(expressions: Vec<String>) -> (r: Result<Pattern, DltError>)
        ensures
            match r {
                Ok(p) => p.spec_sources() == expressions.deep_view() && re_set_valid(
                    expressions.deep_view(),
                ) && (forall|i: int|
                    0 <= i < expressions@.len() ==> re_valid(expressions.deep_view()[i])),
                Err(e) => e == DltError::ConfigError && !(re_set_valid(expressions.deep_view())
                    && (forall|i: int|
                        0 <= i < expressions@.len() ==> re_valid(expressions.deep_view()[i]))),
            },
    {
        let regex_set = match regex_set_new(&expressions) {
            Some(s) => s,
            None => {
                return Err(DltError::ConfigError);
            },
        };
        let mut regexes: Vec<regex::Regex> = Vec::new();
        let mut i: usize = 0;
        while i < expressions.len()
            invariant
                i <= expressions@.len(),
                regexes@.len() == i,
                forall|k: int| 0 <= k < i ==> re_valid(expressions.deep_view()[k]),
            decreases expressions@.len() - i,
        {
            let expr = &expressions[i];
            proof {
                assert(expr@ == expressions.deep_view()[i as int]);
            }
            match regex_new(expr.as_str()) {
                Some(re) => {
                    regexes.push(re);
                },
                None => {
                    proof {
                        assert(!re_valid(expressions.deep_view()[i as int]));
                    }
                    return Err(DltError::ConfigError);
                },
            }
            i = i + 1;
        }
        Ok(Pattern { sources: expressions, regex_set, regexes })
    }

    /// The capture names declared across all the given pattern sources,
    /// in scan order: each maximal lowercase run enclosed as `<name>`.
    pub fn capture_names(patterns: &Vec<String>) -> (r: Option<Vec<String>>)
        ensures
            ({
                let all = names_of_all(patterns.deep_view());
                match r {
                    None => all.len() == 0,
                    Some(v) => v.deep_view() == all && all.len() > 0,
                }
            }),
    {
        let ghost pd = patterns.deep_view();
        let mut names: Vec<String> = Vec::new();
        let mut k: usize = 0;
        proof {
            assert(pd.skip(0) =~= pd);
        }
        while k < patterns.len()
            invariant
                pd == patterns.deep_view(),
                k <= pd.len(),
                names.deep_view() + names_of_all(pd.skip(k as int)) == names_of_all(pd),
            decreases pd.len() - k,
        {
            proof {
                assert(pd.skip(k as int).drop_first() =~= pd.skip(k + 1));
                assert(pd.skip(k as int)[0] == pd[k as int]);
            }
            let found = scan_names(patterns[k].as_str());
            let ghost n0 = names.deep_view();
            let mut m: usize = 0;
            while m < found.len()
                invariant
                    m <= found@.len(),
                    names.deep_view() =~= n0 + found.deep_view().take(m as int),
                decreases found@.len() - m,
            {
                let ghost before = names.deep_view();
                names.push(found[m].clone());
                proof {
                    assert(names.deep_view() =~= before.push(found.deep_view()[m as int]));
                    assert(names.deep_view() =~= n0 + found.deep_view().take(m + 1));
                }
                m = m + 1;
            }
            proof {
                assert(found.deep_view().take(found@.len() as int) =~= found.deep_view());
                assert(names.deep_view() + names_of_all(pd.skip(k + 1)) =~= n0 + names_of_all(
                    pd.skip(k as int),
                ));
            }
            k = k + 1;
        }
        proof {
            assert(pd.skip(pd.len() as int) =~= Seq::<Seq<char>>::empty());
            assert(names.deep_view() + Seq::<Seq<char>>::empty() =~= names.deep_view());
        }
        if names.len() == 0 {
            proof {
                assert(names.deep_view() =~= Seq::<Seq<char>>::empty());
            }
            None
        } else {
            Some(names)
        }
    }

    /// Runs the set query, then collects the capture bundles of every
    /// matching pattern in pattern order. `None` when nothing matches.
    pub fn captures(&self, string: &str) -> (r: Option<Vec<Vec<Capture>>>)
        ensures
            match r {
                None => forall|k: int|
                    0 <= k < self.spec_sources().len() ==> !re_matches(
                        self.spec_sources()[k],
                        string@,
                    ),
                Some(b) => b@.len() > 0 && b.deep_view() == bundles_for(
                    self.spec_sources(),
                    string@,
                    0,
                ),
            },
    {
        let idx = set_match_indices(self, string);
        let n = self.sources.len();
        let mut bundles: Vec<Vec<Capture>> = Vec::new();
        let mut i: usize = 0;
        let mut j: usize = 0;
        while i < n
            invariant
                n == self.spec_sources().len(),
                i <= n,
                j <= idx@.len(),
                forall|a: int, b: int| 0 <= a < b < idx@.len() ==> idx@[a] < idx@[b],
                forall|a: int| 0 <= a < idx@.len() ==> idx@[a] < n,
                forall|a: int|
                    0 <= a < n ==> ((exists|b: int| 0 <= b < idx@.len() && idx@[b] == a) <==> re_matches(
                        self.spec_sources()[a],
                        string@,
                    )),
                forall|a: int| 0 <= a < j ==> idx@[a] < i,
                forall|a: int| j <= a < idx@.len() ==> idx@[a] >= i,
                bundles.deep_view() + bundles_for(self.spec_sources(), string@, i as int)
                    == bundles_for(self.spec_sources(), string@, 0),
            decreases n - i,
        {
            let ghost sources = self.spec_sources();
            let matched = j < idx.len() && idx[j as usize] == i;
            proof {
                if matched {
                    assert(re_matches(sources[i as int], string@));
                } else {
                    if re_matches(sources[i as int], string@) {
                        let b = choose|b: int| 0 <= b < idx@.len() && idx@[b] == i;
                        assert(b >= j);
                        if b > j {
                            assert(idx@[j as int] < idx@[b]);
                        }
                        assert(false);
                    }
                }
            }
            if matched {
                match captures_at(self, i, string) {
                    Some(c) => {
                        let ghost b0 = bundles.deep_view();
                        bundles.push(c);
                        proof {
                            assert(bundles.deep_view() =~= b0.push(c.deep_view()));
                            assert(bundles_for(sources, string@, i as int) == seq![
                                re_caps(sources[i as int], string@),
                            ] + bundles_for(sources, string@, i + 1));
                            assert(bundles.deep_view() + bundles_for(sources, string@, i + 1)
                                =~= b0 + bundles_for(sources, string@, i as int));
                        }
                        j = j + 1;
                    },
                    None => {
                        return vstd::pervasive::unreached();
                    },
                }
            }
            i = i + 1;
        }
        if bundles.len() == 0 {
            proof {
                assert(bundles.deep_view() =~= Seq::<Seq<(Seq<char>, Seq<char>)>>::empty());
                assert(bundles_for(self.spec_sources(), string@, n as int).len() == 0);
                lemma_bundles_empty(self.spec_sources(), string@, 0);
            }
            None
        } else {
            proof {
                assert(bundles.deep_view() + bundles_for(self.spec_sources(), string@, n as int)
                    =~= bundles.deep_view());
            }
            Some(bundles)
        }
    }
}

/// The key of one filter slot.
#[derive(Debug, Eq, PartialEq, Hash, Structural, Clone, Copy)]
pub enum FilterId {
    EcuId,
    ContextId,
    AppId,
    Time,
    Patterns,
}

/// One configured filter value.
pub enum FilterType {
    EcuId(String),
    ContextId(String),
    AppId(String),
    Time(u64, u64),
    Patterns(Pattern),
}

/// The filter set: at most one entry per filter kind.
pub struct Filter {
    pub ecu: Option<FilterType>,
    pub app: Option<FilterType>,
    pub ctx: Option<FilterType>,
    pub time: Option<FilterType>,
    pub patterns: Option<FilterType>,
}

/// Whether the message passes the ECU identifier predicate: absent filter
/// accepts; a configured identifier must equal the storage header's ECU.
pub open spec fn ecu_passes(f: &Filter, m: MessageModel) -> bool {
    match f.ecu {
        Some(FilterType::EcuId(id)) => id@ == m.storage_ecu,
        _ => true,
    }
}

/// Whether the message passes the application identifier predicate: a
/// configured identifier rejects messages without an extended header and
/// must equal the extended header's application id otherwise.
pub open spec fn app_passes(f: &Filter, m: MessageModel) -> bool {
    match f.app {
        Some(FilterType::AppId(id)) => m.ext matches Some(x) && x.app == id@,
        _ => true,
    }
}

/// Whether the message passes the context identifier predicate.
pub open spec fn ctx_passes(f: &Filter, m: MessageModel) -> bool {
    match f.ctx {
        Some(FilterType::ContextId(id)) => m.ext matches Some(x) && x.ctx == id@,
        _ => true,
    }
}

/// The capture bundles of the first string-typed argument that matches at
/// least one pattern; empty when no argument matches.
pub open spec fn first_match_bundles(sources: Seq<Seq<char>>, vals: Seq<ValueModel>) -> Seq<
    Seq<(Seq<char>, Seq<char>)>,
>
    decreases vals.len(),
{
    if vals.len() == 0 {
        Seq::empty()
    } else {
        match vals[0] {
            ValueModel::Str(t) => if bundles_for(sources, t, 0).len() > 0 {
                bundles_for(sources, t, 0)
            } else {
                first_match_bundles(sources, vals.drop_first())
            },
            _ => first_match_bundles(sources, vals.drop_first()),
        }
    }
}

impl Filter {
    pub fn new() -> (f: Filter)
        ensures
            f.ecu is None,
            f.app is None,
            f.ctx is None,
            f.time is None,
            f.patterns is None,
    {
        Filter { ecu: None, app: None, ctx: None, time: None, patterns: None }
    }

    /// Stores `value` in the slot `key` selects, replacing any previous
    /// entry of that kind.
    pub fn add(&mut self, key: FilterId, value: FilterType)
        ensures
            final(self).ecu == (if key == FilterId::EcuId {
                Some(value)
            } else {
                old(self).ecu
            }),
            final(self).app == (if key == FilterId::AppId {
                Some(value)
            } else {
                old(self).app
            }),
            final(self).ctx == (if key == FilterId::ContextId {
                Some(value)
            } else {
                old(self).ctx
            }),
            final(self).time == (if key == FilterId::Time {
                Some(value)
            } else {
                old(self).time
            }),
            final(self).patterns == (if key == FilterId::Patterns {
                Some(value)
            } else {
                old(self).patterns
            }),
    {
        match key {
            FilterId::EcuId => {
                self.ecu = Some(value);
            },
            FilterId::AppId => {
                self.app = Some(value);
            },
            FilterId::ContextId => {
                self.ctx = Some(value);
            },
            FilterId::Time => {
                self.time = Some(value);
            },
            FilterId::Patterns => {
                self.patterns = Some(value);
            },
        }
    }

    pub fn filter_ecu_id(&self, msg: &Message) -> (r: bool)
        ensures
            r == ecu_passes(self, msg_model(msg)),
    {
        match &self.ecu {
            Some(FilterType::EcuId(ecu_id)) => *ecu_id == *msg.storage_header.ecu_id(),
            Some(_) => true,
            None => true,
        }
    }

    pub fn filter_app_id(&self, msg: &Message) -> (r: bool)
        ensures
            r == app_passes(self, msg_model(msg)),
    {
        match &self.app {
            Some(FilterType::AppId(app_id)) => match &msg.extended_header {
                Some(extended_header) => *app_id == *extended_header.app_id(),
                None => false,
            },
            Some(_) => true,
            None => true,
        }
    }

    pub fn filter_context_id(&self, msg: &Message) -> (r: bool)
        ensures
            r == ctx_passes(self, msg_model(msg)),
    {
        match &self.ctx {
            Some(FilterType::ContextId(context_id)) => match &msg.extended_header {
                Some(extended_header) => *context_id == *extended_header.context_id(),
                None => false,
            },
            Some(_) => true,
            None => true,
        }
    }

    /// Runs the pattern predicate over the message's string-typed
    /// arguments, in argument order; the first argument that matches any
    /// pattern supplies the capture bundles. `None` means no patterns
    /// filter is configured; an empty bundle list means the patterns
    /// matched no argument.
    pub fn find_patterns(&self, msg: &Message) -> (r: Option<Vec<Vec<Capture>>>)
        ensures
            match &self.patterns {
                Some(FilterType::Patterns(p)) => r matches Some(b) && b.deep_view()
                    == first_match_bundles(p.spec_sources(), msg_model(msg).payload),
                _ => r is None,
            },
    {
        match &self.patterns {
            Some(FilterType::Patterns(patterns)) => {
                let ghost sources = patterns.spec_sources();
                let ghost vals = msg.payload.deep_view();
                let n = msg.payload.len();
                proof {
                    assert(vals.skip(0) =~= vals);
                }
                let mut i: usize = 0;
                while i < n
                    invariant
                        n == msg.payload@.len(),
                        i <= n,
                        sources == patterns.spec_sources(),
                        self.patterns matches Some(FilterType::Patterns(pp)) && pp.spec_sources()
                            == sources,
                        vals == msg.payload.deep_view(),
                        first_match_bundles(sources, vals.skip(i as int)) == first_match_bundles(
                            sources,
                            vals,
                        ),
                    decreases n - i,
                {
                    proof {
                        assert(vals.skip(i as int).drop_first() =~= vals.skip(i + 1));
                        assert(vals.skip(i as int)[0] == vals[i as int]);
                    }
                    match &msg.payload[i] {
                        Value::Str(string) => {
                            proof {
                                assert(vals[i as int] == ValueModel::Str(string@));
                            }
                            let capture_matches = patterns.captures(string.as_str());
                            match capture_matches {
                                Some(b) => {
                                    proof {
                                        assert(b.deep_view().len() == b@.len());
                                        assert(bundles_for(sources, string@, 0).len() > 0);
                                        assert(vals.skip(i as int).len() > 0);
                                        assert(first_match_bundles(sources, vals.skip(i as int))
                                            == bundles_for(sources, string@, 0));
                                    }
                                    return Some(b);
                                },
                                None => {
                                    proof {
                                        lemma_bundles_empty(
                                            sources,
                                            vals[i as int]->Str_0,
                                            0,
                                        );
                                    }
                                },
                            }
                        },
                        _ => {},
                    }
                    i = i + 1;
                }
                proof {
                    assert(vals.skip(n as int) =~= Seq::<ValueModel>::empty());
                }
                Some(Vec::new())
            },
            _ => None,
        }
    }
}

/// For any identifier filter set to a value, the corresponding header
/// field of a message that passes all identifier predicates equals that
/// value.
pub proof fn lemma_identifier_filters_pin_fields(f: &Filter, m: MessageModel)
    requires
        ecu_passes(f, m),
        app_passes(f, m),
        ctx_passes(f, m),
    ensures
        f.ecu matches Some(FilterType::EcuId(v)) ==> m.storage_ecu == v@,
        f.app matches Some(FilterType::AppId(v)) ==> (m.ext matches Some(x) && x.app == v@),
        f.ctx matches Some(FilterType::ContextId(v)) ==> (m.ext matches Some(x) && x.ctx == v@),
{
}

/// A message whose pattern query returns a non-empty capture bundle list
/// has at least one string-typed argument that matches at least one
/// configured pattern.
pub proof fn lemma_pattern_survivor_matches(sources: Seq<Seq<char>>, vals: Seq<ValueModel>)
    requires
        first_match_bundles(sources, vals).len() > 0,
    ensures
        exists|i: int, j: int|
            #![trigger vals[i], sources[j]]
            0 <= i < vals.len() && 0 <= j < sources.len() && (vals[i] matches ValueModel::Str(t)
                && re_matches(sources[j], t)),
    decreases vals.len(),
{
    if vals.len() > 0 {
        match vals[0] {
            ValueModel::Str(t) => {
                if bundles_for(sources, t, 0).len() > 0 {
                    lemma_bundles_empty(sources, t, 0);
                    let j = choose|j: int|
                        0 <= j < sources.len() && re_matches(sources[j], t);
                    assert(0 <= 0 < vals.len() && 0 <= j < sources.len() && (vals[0]
                        matches ValueModel::Str(t2) && re_matches(sources[j], t2)));
                } else {
                    lemma_pattern_survivor_matches(sources, vals.drop_first());
                    let (i, j) = choose|i: int, j: int|
                        #![trigger vals.drop_first()[i], sources[j]]
                        0 <= i < vals.drop_first().len() && 0 <= j < sources.len() && (
                        vals.drop_first()[i] matches ValueModel::Str(t) && re_matches(
                            sources[j],
                            t,
                        ));
                    assert(vals.drop_first()[i] == vals[i + 1]);
                }
            },
            _ => {
                lemma_pattern_survivor_matches(sources, vals.drop_first());
                let (i, j) = choose|i: int, j: int|
                    #![trigger vals.drop_first()[i], sources[j]]
                    0 <= i < vals.drop_first().len() && 0 <= j < sources.len() && (
                    vals.drop_first()[i] matches ValueModel::Str(t) && re_matches(sources[j], t));
                assert(vals.drop_first()[i] == vals[i + 1]);
            },
        }
    }
}

/// Whether a character is an ASCII lowercase letter.
pub open spec fn is_lower(c: char) -> bool {
    'a' <= c && c <= 'z'
}

/// The length of the maximal run of lowercase letters starting at `i`.
pub open spec fn lc_run_len(s: Seq<char>, i: int) -> int
    decreases s.len() - i,
{
    if 0 <= i < s.len() && is_lower(s[i]) {
        1 + lc_run_len(s, i + 1)
    } else {
        0
    }
}

/// The capture group names declared in one pattern source from `i` on:
/// each maximal lowercase run enclosed in angle brackets.
pub open spec fn names_from(s: Seq<char>, i: int) -> Seq<Seq<char>>
    decreases s.len() - i,
{
    if !(0 <= i < s.len()) {
        Seq::empty()
    } else if s[i] == '<' {
        let run = lc_run_len(s, i + 1);
        if run > 0 && i + 1 + run < s.len() && s[i + 1 + run] == '>' {
            seq![s.subrange(i + 1, i + 1 + run)] + names_from(s, i + run + 2)
        } else {
            names_from(s, i + 1)
        }
    } else {
        names_from(s, i + 1)
    }
}

/// The capture names declared across a sequence of pattern sources.
pub open spec fn names_of_all(ps: Seq<Seq<char>>) -> Seq<Seq<char>>
    decreases ps.len(),
{
    if ps.len() == 0 {
        Seq::empty()
    } else {
        names_from(ps[0], 0) + names_of_all(ps.drop_first())
    }
}

/// Scans one pattern source for angle-bracketed lowercase names.
fn scan_names(s: &str) -> (r: Vec<String>)
    ensures
        r.deep_view() == names_from(s@, 0),
{
    let n = s.unicode_len();
    let mut acc: Vec<String> = Vec::new();
    let mut i: usize = 0;
    while i < n
        invariant
            n == s@.len(),
            i <= n,
            acc.deep_view() + names_from(s@, i as int) == names_from(s@, 0),
        decreases n - i,
    {
        let c = s.get_char(i);
        if c == '<' {
            let mut j = i + 1;
            while j < n
                invariant
                    n == s@.len(),
                    i + 1 <= j <= n,
                    lc_run_len(s@, i + 1) == (j - i - 1) + lc_run_len(s@, j as int),
                ensures
                    i + 1 <= j <= n,
                    lc_run_len(s@, i + 1) == j - i - 1,
                decreases n - j,
            {
                let cj = s.get_char(j);
                if !(cj >= 'a' && cj <= 'z') {
                    proof {
                        assert(lc_run_len(s@, j as int) == 0);
                    }
                    break;
                }
                proof {
                    assert(lc_run_len(s@, j as int) == 1 + lc_run_len(s@, j + 1));
                }
                j = j + 1;
            }
            let run = j - i - 1;
            let mut took_name = false;
            if run > 0 && j < n {
                let cj = s.get_char(j);
                if cj == '>' {
                    took_name = true;
                    let name_str = s.substring_char(i + 1, j);
                    let ghost before = acc.deep_view();
                    acc.push(name_str.to_owned());
                    proof {
                        assert(names_from(s@, i as int) == seq![s@.subrange(i + 1, j as int)]
                            + names_from(s@, j + 1));
                        assert(acc.deep_view() =~= before.push(name_str@));
                        assert(acc.deep_view() + names_from(s@, j + 1) =~= before + names_from(
                            s@,
                            i as int,
                        ));
                    }
                    i = j + 1;
                }
            }
            if !took_name {
                proof {
                    assert(names_from(s@, i as int) == names_from(s@, i + 1));
                }
                i = i + 1;
            }
        } else {
            proof {
                assert(names_from(s@, i as int) == names_from(s@, i + 1));
            }
            i = i + 1;
        }
    }
    proof {
        assert(names_from(s@, n as int) =~= Seq::<Seq<char>>::empty());
        assert(acc.deep_view() + Seq::<Seq<char>>::empty() =~= acc.deep_view());
    }
    acc
}

} // verus!
