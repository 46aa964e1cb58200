//! Custom input-method configurations: their schema, the classification of
//! decoding failures, and rule validation.
//!
//! A configuration file (JSON or TOML) describes an input method as a list
//! of transformation rules, each mapping a keystroke sequence to one output
//! char, optionally under a context. Decoding the text into an
//! [`InputMethodConfig`] is the job of a format decoder handed to
//! [`ConfigParser::parse`]; this module bounds the input size and turns a
//! decoder's failure into a [`ParseError`]. [`ConfigParser::validate_rules`]
//! reports conflicting mappings and rule cycles.

use vstd::prelude::*;
use vstd::string::StringExecFns;
use vstd::string::StringSliceAdditionalSpecFns;

verus! {

/// Maximum accepted configuration file size: 10 MB.
pub const MAX_CONFIG_FILE_SIZE: usize = 10 * 1024 * 1024;

/// Supported configuration file formats.
#[derive(Debug, Clone, Copy, PartialEq, Eq, Structural)]
pub enum ConfigFormat {
    /// JSON-formatted configuration.
    Json,
    /// TOML-formatted configuration.
    Toml,
}

/// A custom input-method configuration.
#[derive(Debug, Clone, PartialEq)]
pub struct InputMethodConfig {
    /// Stable unique identifier for the input method.
    pub id: String,
    /// Human-readable display name.
    pub name: String,
    /// The transformation rules.
    pub rules: Vec<TransformationRule>,
    /// Optional metadata.
    pub metadata: Option<ConfigMetadata>,
}

/// A transformation rule mapping an input sequence to an output char.
#[derive(Debug, Clone, PartialEq)]
pub struct TransformationRule {
    /// The keystroke sequence that triggers the rule (e.g. "aa").
    pub input_sequence: String,
    /// The resulting char (e.g. 'â').
    pub output_char: char,
    /// Optional constraints on when the rule applies.
    pub context: Option<RuleContext>,
}

/// Context constraints gating when a rule applies.
#[derive(Debug, Clone, PartialEq, Eq, Hash)]
pub struct RuleContext {
    /// Chars that must immediately precede the sequence, if any.
    pub preceding: Option<Vec<char>>,
    /// Chars that must not immediately precede the sequence, if any.
    pub not_preceding: Option<Vec<char>>,
}

/// Optional descriptive metadata.
#[derive(Debug, Clone, PartialEq)]
pub struct ConfigMetadata {
    /// Schema/version string.
    pub version: String,
    /// Optional author.
    pub author: Option<String>,
    /// Optional description.
    pub description: Option<String>,
}

/// A rule context as a value.
pub struct ContextView {
    pub preceding: Option<Seq<char>>,
    pub not_preceding: Option<Seq<char>>,
}

/// The value of an optional char list.
pub open spec fn opt_chars(o: Option<Vec<char>>) -> Option<Seq<char>> {
    match o {
        Some(v) => Some(v@),
        None => None,
    }
}

/// The value of a rule context.
pub open spec fn context_view(c: RuleContext) -> ContextView {
    ContextView { preceding: opt_chars(c.preceding), not_preceding: opt_chars(c.not_preceding) }
}

/// A rule as a value.
pub struct RuleView {
    pub input: Seq<char>,
    pub output: char,
    pub context: Option<ContextView>,
}

impl View for TransformationRule {
    type V = RuleView;

    open spec fn view(&self) -> RuleView {
        RuleView {
            input: self.input_sequence@,
            output: self.output_char,
            context: match self.context {
                Some(c) => Some(context_view(c)),
                None => None,
            },
        }
    }
}

/// The values of a list of rules.
pub open spec fn rule_views(rs: Seq<TransformationRule>) -> Seq<RuleView> {
    rs.map_values(|r: TransformationRule| r@)
}

/// Errors produced by rule validation.
#[derive(Debug, Clone, PartialEq)]
pub enum ValidationError {
    /// The rules at these indices form a cycle, each one's output being the
    /// next one's input.
    CyclicRule {
        /// Indices of the rules in the cycle, in cycle order.
        rules: Vec<usize>,
    },
    /// One input sequence, under one context, maps to several outputs.
    ConflictingMapping {
        /// The input sequence.
        input: String,
        /// Its distinct outputs, in first-seen order.
        outputs: Vec<char>,
    },
}

/// A validation error as a value.
pub enum ErrorView {
    Cyclic(Seq<usize>),
    Conflicting(Seq<char>, Seq<char>),
}

/// The value of a validation error.
pub open spec fn error_view(e: ValidationError) -> ErrorView {
    match e {
        ValidationError::CyclicRule { rules } => ErrorView::Cyclic(rules@),
        ValidationError::ConflictingMapping { input, outputs } => ErrorView::Conflicting(input@, outputs@),
    }
}

/// The values of a list of validation errors.
pub open spec fn error_views(es: Seq<ValidationError>) -> Seq<ErrorView> {
    es.map_values(|e: ValidationError| error_view(e))
}

/// When a rule applies: its input sequence together with its context.
pub open spec fn rule_key(r: RuleView) -> (Seq<char>, Option<ContextView>) {
    (r.input, r.context)
}

/// The distinct rule keys, in first-seen order.
pub open spec fn keys_in_order(rs: Seq<RuleView>) -> Seq<(Seq<char>, Option<ContextView>)>
    decreases rs.len(),
{
    if rs.len() == 0 {
        Seq::empty()
    } else {
        let ks = keys_in_order(rs.drop_last());
        if ks.contains(rule_key(rs.last())) {
            ks
        } else {
            ks.push(rule_key(rs.last()))
        }
    }
}

/// The distinct outputs of the rules with key `k`, in first-seen order.
pub open spec fn outputs_for(rs: Seq<RuleView>, k: (Seq<char>, Option<ContextView>)) -> Seq<char>
    decreases rs.len(),
{
    if rs.len() == 0 {
        Seq::empty()
    } else {
        let os = outputs_for(rs.drop_last(), k);
        if rule_key(rs.last()) == k && !os.contains(rs.last().output) {
            os.push(rs.last().output)
        } else {
            os
        }
    }
}

/// One conflict for each key of `ks` (in order) with more than one output.
pub open spec fn conflicts_among(rs: Seq<RuleView>, ks: Seq<(Seq<char>, Option<ContextView>)>) -> Seq<ErrorView>
    decreases ks.len(),
{
    if ks.len() == 0 {
        Seq::empty()
    } else {
        let prior = conflicts_among(rs, ks.drop_last());
        let k = ks.last();
        if outputs_for(rs, k).len() > 1 {
            prior.push(ErrorView::Conflicting(k.0, outputs_for(rs, k)))
        } else {
            prior
        }
    }
}

/// The conflicting mappings among `rs`: for each key (input and context)
/// that yields more than one distinct output, in first-seen key order, its
/// input and distinct outputs in first-seen order.
pub open spec fn conflicts_of(rs: Seq<RuleView>) -> Seq<ErrorView> {
    conflicts_among(rs, keys_in_order(rs))
}

/// `a` and `b` hold the same chars.
fn same_chars(a: &Vec<char>, b: &Vec<char>) -> (r: bool)
    ensures
        r == (a@ == b@),
{
    if a.len() != b.len() {
        return false;
    }
    let mut i: usize = 0;
    while i < a.len()
        invariant
            i <= a@.len() == b@.len(),
            forall|j: int| 0 <= j < i ==> a@[j] == b@[j],
        decreases a@.len() - i,
    {
        if a[i] != b[i] {
            return false;
        }
        i += 1;
    }
    assert(a@ =~= b@);
    true
}

fn same_opt_chars(a: &Option<Vec<char>>, b: &Option<Vec<char>>) -> (r: bool)
    ensures
        r == (opt_chars(*a) == opt_chars(*b)),
{
    match (a, b) {
        (None, None) => true,
        (Some(x), Some(y)) => same_chars(x, y),
        _ => false,
    }
}

/// The two rules apply under the same key.
fn same_key(a: &TransformationRule, b: &TransformationRule) -> (r: bool)
    ensures
        r == (rule_key(a@) == rule_key(b@)),
{
    if a.input_sequence != b.input_sequence {
        return false;
    }
    match (&a.context, &b.context) {
        (None, None) => true,
        (Some(x), Some(y)) => same_opt_chars(&x.preceding, &y.preceding) && same_opt_chars(
            &x.not_preceding,
            &y.not_preceding,
        ),
        _ => false,
    }
}

fn contains_char(v: &Vec<char>, c: char) -> (r: bool)
    ensures
        r == v@.contains(c),
{
    let mut i: usize = 0;
    while i < v.len()
        invariant
            i <= v@.len(),
            forall|j: int| 0 <= j < i ==> v@[j] != c,
        decreases v@.len() - i,
    {
        if v[i] == c {
            assert(v@[i as int] == c);
            return true;
        }
        i += 1;
    }
    false
}

fn copy_chars(v: &Vec<char>) -> (r: Vec<char>)
    ensures
        r@ == v@,
{
    let mut r: Vec<char> = Vec::new();
    let mut i: usize = 0;
    while i < v.len()
        invariant
            i <= v@.len(),
            r@ == v@.take(i as int),
        decreases v@.len() - i,
    {
        r.push(v[i]);
        assert(v@.take(i as int + 1) == v@.take(i as int).push(v@[i as int]));
        i += 1;
    }
    assert(v@.take(v@.len() as int) =~= v@);
    r
}

/// The conflicting mappings among `rules` (see [`conflicts_of`]).
pub fn detect_conflicts(rules: &Vec<TransformationRule>) -> (r: Vec<ValidationError>)
    ensures
        error_views(r@) == conflicts_of(rule_views(rules@)),
{
    let ghost rs = rule_views(rules@);
    // Each group: the index of the first rule with the key, and the distinct
    // outputs seen for it so far.
    let mut groups: Vec<(usize, Vec<char>)> = Vec::new();
    let mut i: usize = 0;
    while i < rules.len()
        invariant
            i <= rules@.len(),
            rs == rule_views(rules@),
            groups@.len() == keys_in_order(rs.take(i as int)).len(),
            forall|g: int|
                0 <= g < groups@.len() ==> (#[trigger] groups@[g]).0 < i && rule_key(rs[groups@[g].0 as int])
                    == keys_in_order(rs.take(i as int))[g] && groups@[g].1@ == outputs_for(
                    rs.take(i as int),
                    keys_in_order(rs.take(i as int))[g],
                ),
        decreases rules@.len() - i,
    {
        let ghost prev = rs.take(i as int);
        let ghost next = rs.take(i as int + 1);
        let ghost ks = keys_in_order(prev);
        let ghost k = rule_key(rs[i as int]);
        proof {
            assert(next.drop_last() =~= prev);
            assert(next.last() == rs[i as int]);
            assert(rs[i as int] == rules@[i as int]@);
        }
        let mut found: Option<usize> = None;
        let mut g: usize = 0;
        while g < groups.len()
            invariant_except_break
                found is None,
                forall|h: int| 0 <= h < g ==> rule_key(rs[(#[trigger] groups@[h]).0 as int]) != k,
            invariant
                g <= groups@.len(),
                i < rules@.len(),
                rs == rule_views(rules@),
                forall|h: int| 0 <= h < groups@.len() ==> (#[trigger] groups@[h]).0 < rules@.len(),
                k == rule_key(rs[i as int]),
            ensures
                found matches Some(x) ==> x < groups@.len() && rule_key(rs[groups@[x as int].0 as int]) == k,
                found is None ==> forall|h: int| 0 <= h < groups@.len() ==> rule_key(rs[(#[trigger] groups@[h]).0 as int]) != k,
            decreases groups@.len() - g,
        {
            if same_key(&rules[groups[g].0], &rules[i]) {
                found = Some(g);
                break;
            }
            g += 1;
        }
        let out = rules[i].output_char;
        match found {
            Some(x) => {
                let present = contains_char(&groups[x].1, out);
                if !present {
                    let mut outs = copy_chars(&groups[x].1);
                    outs.push(out);
                    let rep = groups[x].0;
                    groups.set(x, (rep, outs));
                }
                proof {
                    assert(ks.contains(k)) by {
                        assert(ks[x as int] == k);
                    }
                    assert(keys_in_order(next) == ks);
                    assert forall|h: int| 0 <= h < groups@.len() implies (#[trigger] groups@[h]).0 < i + 1 && rule_key(
                        rs[groups@[h].0 as int],
                    ) == keys_in_order(next)[h] && groups@[h].1@ == outputs_for(next, keys_in_order(next)[h]) by {
                        if h == x {
                            assert(outputs_for(next, k) == if !outputs_for(prev, k).contains(out) {
                                outputs_for(prev, k).push(out)
                            } else {
                                outputs_for(prev, k)
                            });
                        } else {
                            assert(ks[h] != k) by {
                                assert(ks[x as int] == k);
                                lemma_keys_distinct(prev);
                            }
                        }
                    }
                }
            },
            None => {
                let mut outs: Vec<char> = Vec::new();
                outs.push(out);
                groups.push((i, outs));
                proof {
                    assert(!ks.contains(k)) by {
                        if ks.contains(k) {
                            let h = choose|h: int| 0 <= h < ks.len() && ks[h] == k;
                            assert(rule_key(rs[groups@[h].0 as int]) == k);
                        }
                    }
                    assert(keys_in_order(next) == ks.push(k));
                    assert forall|h: int| 0 <= h < groups@.len() implies (#[trigger] groups@[h]).0 < i + 1 && rule_key(
                        rs[groups@[h].0 as int],
                    ) == keys_in_order(next)[h] && groups@[h].1@ == outputs_for(next, keys_in_order(next)[h]) by {
                        if h < ks.len() {
                            assert(ks[h] != k);
                        } else {
                            assert(outputs_for(prev, k) =~= Seq::<char>::empty()) by {
                                lemma_outputs_absent(prev, k);
                            }
                            assert(groups@[h].1@ =~= seq![out]);
                        }
                    }
                }
            },
        }
        i += 1;
    }
    proof {
        assert(rs.take(rules@.len() as int) =~= rs);
    }
    let ghost ks = keys_in_order(rs);
    let mut errors: Vec<ValidationError> = Vec::new();
    let mut g: usize = 0;
    while g < groups.len()
        invariant
            g <= groups@.len(),
            rs == rule_views(rules@),
            ks == keys_in_order(rs),
            groups@.len() == ks.len(),
            forall|h: int|
                0 <= h < groups@.len() ==> (#[trigger] groups@[h]).0 < rules@.len() && rule_key(rs[groups@[h].0 as int])
                    == ks[h] && groups@[h].1@ == outputs_for(rs, ks[h]),
            error_views(errors@) == conflicts_among(rs, ks.take(g as int)),
        decreases groups@.len() - g,
    {
        proof {
            assert(ks.take(g as int + 1).drop_last() =~= ks.take(g as int));
            assert(ks.take(g as int + 1).last() == ks[g as int]);
        }
        if groups[g].1.len() > 1 {
            let rep = groups[g].0;
            let e = ValidationError::ConflictingMapping {
                input: rules[rep].input_sequence.clone(),
                outputs: copy_chars(&groups[g].1),
            };
            let ghost before = error_views(errors@);
            errors.push(e);
            proof {
                assert(error_views(errors@) =~= before.push(error_view(e)));
                assert(rs[rep as int] == rules@[rep as int]@);
            }
        }
        g += 1;
    }
    proof {
        assert(ks.take(ks.len() as int) =~= ks);
    }
    errors
}

/// No key is listed twice.
proof fn lemma_keys_distinct(rs: Seq<RuleView>)
    ensures
        forall|a: int, b: int|
            0 <= a < b < keys_in_order(rs).len() ==> #[trigger] keys_in_order(rs)[a] != #[trigger] keys_in_order(rs)[b],
    decreases rs.len(),
{
    if rs.len() > 0 {
        lemma_keys_distinct(rs.drop_last());
        let ks = keys_in_order(rs.drop_last());
        let all = keys_in_order(rs);
        assert forall|a: int, b: int| 0 <= a < b < all.len() implies #[trigger] all[a] != #[trigger] all[b] by {
            if b == ks.len() {
                assert(all[a] == ks[a]);
                if all[a] == all[b] {
                    assert(ks.contains(all[b]));
                }
            } else {
                assert(all[a] == ks[a]);
                assert(all[b] == ks[b]);
            }
        }
    }
}

/// A key absent from the rules has no outputs.
proof fn lemma_outputs_absent(rs: Seq<RuleView>, k: (Seq<char>, Option<ContextView>))
    requires
        !keys_in_order(rs).contains(k),
    ensures
        outputs_for(rs, k) == Seq::<char>::empty(),
    decreases rs.len(),
{
    if rs.len() > 0 {
        let ks = keys_in_order(rs.drop_last());
        if rule_key(rs.last()) == k {
            if !ks.contains(k) {
                assert(keys_in_order(rs)[ks.len() as int] == k);
            }
        }
        if ks.contains(k) {
            let h = choose|h: int| 0 <= h < ks.len() && ks[h] == k;
            assert(keys_in_order(rs).contains(k)) by {
                assert(keys_in_order(rs)[h] == k);
            }
        }
        lemma_outputs_absent(rs.drop_last(), k);
    }
}

/// Any two rules that apply to the same input under the same context give
/// the same output.
pub open spec fn mappings_consistent(rs: Seq<RuleView>) -> bool {
    forall|a: int, b: int|
        0 <= a < rs.len() && 0 <= b < rs.len() && rule_key(#[trigger] rs[a]) == rule_key(#[trigger] rs[b])
            ==> rs[a].output == rs[b].output
}

/// The outputs listed for key `k` are exactly those of the rules with key
/// `k`, each listed once.
proof fn lemma_outputs_for(rs: Seq<RuleView>, k: (Seq<char>, Option<ContextView>))
    ensures
        forall|c: char|
            #[trigger] outputs_for(rs, k).contains(c) <==> exists|i: int|
                0 <= i < rs.len() && rule_key(#[trigger] rs[i]) == k && rs[i].output == c,
        forall|x: int, y: int|
            0 <= x < y < outputs_for(rs, k).len() ==> #[trigger] outputs_for(rs, k)[x]
                != #[trigger] outputs_for(rs, k)[y],
    decreases rs.len(),
{
    if rs.len() > 0 {
        let init = rs.drop_last();
        lemma_outputs_for(init, k);
        let os = outputs_for(init, k);
        let all = outputs_for(rs, k);
        assert forall|c: char| #[trigger] all.contains(c) implies exists|i: int|
            0 <= i < rs.len() && rule_key(#[trigger] rs[i]) == k && rs[i].output == c by {
            if os.contains(c) {
                let i = choose|i: int| 0 <= i < init.len() && rule_key(#[trigger] init[i]) == k && init[i].output == c;
                assert(rs[i] == init[i]);
            } else {
                let h = choose|h: int| 0 <= h < all.len() && all[h] == c;
                assert(h == os.len());
                assert(rs[rs.len() - 1] == rs.last());
            }
        }
        assert forall|c: char| (exists|i: int| 0 <= i < rs.len() && rule_key(#[trigger] rs[i]) == k && rs[i].output == c)
            implies #[trigger] all.contains(c) by {
            let i = choose|i: int| 0 <= i < rs.len() && rule_key(#[trigger] rs[i]) == k && rs[i].output == c;
            if i < init.len() {
                assert(init[i] == rs[i]);
                assert(os.contains(c));
                let h = choose|h: int| 0 <= h < os.len() && os[h] == c;
                assert(all[h] == c);
            } else {
                if os.contains(c) {
                    let h = choose|h: int| 0 <= h < os.len() && os[h] == c;
                    assert(all[h] == c);
                } else {
                    assert(all[os.len() as int] == c);
                }
            }
        }
        assert forall|x: int, y: int| 0 <= x < y < all.len() implies #[trigger] all[x] != #[trigger] all[y] by {
            assert(all[x] == os[x]);
            if y == os.len() {
                assert(os.contains(os[x]));
            } else {
                assert(all[y] == os[y]);
            }
        }
    }
}

/// Every rule's key is listed, and only those.
proof fn lemma_keys_listed(rs: Seq<RuleView>, k: (Seq<char>, Option<ContextView>))
    ensures
        keys_in_order(rs).contains(k) <==> exists|i: int| 0 <= i < rs.len() && rule_key(#[trigger] rs[i]) == k,
    decreases rs.len(),
{
    if rs.len() > 0 {
        let init = rs.drop_last();
        lemma_keys_listed(init, k);
        let ks = keys_in_order(init);
        let all = keys_in_order(rs);
        if all.contains(k) {
            if ks.contains(k) {
                let i = choose|i: int| 0 <= i < init.len() && rule_key(#[trigger] init[i]) == k;
                assert(rs[i] == init[i]);
            } else {
                let h = choose|h: int| 0 <= h < all.len() && all[h] == k;
                assert(h == ks.len());
                assert(rs[rs.len() - 1] == rs.last());
            }
        }
        if exists|i: int| 0 <= i < rs.len() && rule_key(#[trigger] rs[i]) == k {
            let i = choose|i: int| 0 <= i < rs.len() && rule_key(#[trigger] rs[i]) == k;
            if i < init.len() {
                assert(init[i] == rs[i]);
                let h = choose|h: int| 0 <= h < ks.len() && ks[h] == k;
                assert(all[h] == k);
            } else if ks.contains(k) {
                let h = choose|h: int| 0 <= h < ks.len() && ks[h] == k;
                assert(all[h] == k);
            } else {
                assert(all[ks.len() as int] == k);
            }
        }
    }
}

/// No conflict is reported among the keys `ks` exactly when each of them has
/// at most one output.
proof fn lemma_conflicts_among_empty(rs: Seq<RuleView>, ks: Seq<(Seq<char>, Option<ContextView>)>)
    ensures
        conflicts_among(rs, ks).len() == 0 <==> forall|j: int|
            0 <= j < ks.len() ==> outputs_for(rs, #[trigger] ks[j]).len() <= 1,
    decreases ks.len(),
{
    if ks.len() > 0 {
        let init = ks.drop_last();
        lemma_conflicts_among_empty(rs, init);
        if conflicts_among(rs, ks).len() == 0 {
            assert forall|j: int| 0 <= j < ks.len() implies outputs_for(rs, #[trigger] ks[j]).len() <= 1 by {
                if j < init.len() {
                    assert(init[j] == ks[j]);
                }
            }
        }
        if forall|j: int| 0 <= j < ks.len() ==> outputs_for(rs, #[trigger] ks[j]).len() <= 1 {
            assert forall|j: int| 0 <= j < init.len() implies outputs_for(rs, #[trigger] init[j]).len() <= 1 by {
                assert(init[j] == ks[j]);
            }
            assert(outputs_for(rs, ks[ks.len() - 1]).len() <= 1);
        }
    }
}

/// The rules have no conflicting mapping exactly when any two rules with
/// the same input and context give the same output.
pub proof fn lemma_no_conflicts_iff_consistent(rs: Seq<RuleView>)
    ensures
        conflicts_of(rs).len() == 0 <==> mappings_consistent(rs),
{
    let ks = keys_in_order(rs);
    lemma_conflicts_among_empty(rs, ks);
    if conflicts_of(rs).len() == 0 {
        assert forall|a: int, b: int|
            0 <= a < rs.len() && 0 <= b < rs.len() && rule_key(#[trigger] rs[a]) == rule_key(#[trigger] rs[b])
            implies rs[a].output == rs[b].output by {
            let k = rule_key(rs[a]);
            lemma_keys_listed(rs, k);
            lemma_outputs_for(rs, k);
            let j = choose|j: int| 0 <= j < ks.len() && ks[j] == k;
            assert(outputs_for(rs, ks[j]).len() <= 1);
            let os = outputs_for(rs, k);
            assert(os.contains(rs[a].output));
            assert(os.contains(rs[b].output));
            let x = choose|x: int| 0 <= x < os.len() && os[x] == rs[a].output;
            let y = choose|y: int| 0 <= y < os.len() && os[y] == rs[b].output;
            assert(x == y);
        }
    }
    if mappings_consistent(rs) {
        assert forall|j: int| 0 <= j < ks.len() implies outputs_for(rs, #[trigger] ks[j]).len() <= 1 by {
            let k = ks[j];
            lemma_outputs_for(rs, k);
            let os = outputs_for(rs, k);
            if os.len() > 1 {
                assert(os.contains(os[0]));
                assert(os.contains(os[1]));
                let a = choose|i: int| 0 <= i < rs.len() && rule_key(#[trigger] rs[i]) == k && rs[i].output == os[0];
                let b = choose|i: int| 0 <= i < rs.len() && rule_key(#[trigger] rs[i]) == k && rs[i].output == os[1];
                assert(rs[a].output == rs[b].output);
                assert(os[0] != os[1]);
            }
        }
    }
}

/// The node a rule leads to: its output as a one-char string.
pub open spec fn target_of(r: RuleView) -> Seq<char> {
    seq![r.output]
}

/// `cyc` lists rules of `rs`, each leading to the next one's input (the last
/// one to the first one's).
pub open spec fn is_cycle(rs: Seq<RuleView>, cyc: Seq<usize>) -> bool {
    &&& cyc.len() > 0
    &&& forall|k: int| 0 <= k < cyc.len() ==> (#[trigger] cyc[k]) < rs.len()
    &&& forall|k: int|
        0 <= k < cyc.len() ==> target_of(rs[(#[trigger] cyc[k]) as int]) == rs[cyc[(k + 1) % (cyc.len() as int)] as int].input
}

/// Following rule outputs into rule inputs can come back to where it
/// started.
pub open spec fn has_cycle(rs: Seq<RuleView>) -> bool {
    exists|cyc: Seq<usize>| is_cycle(rs, cyc)
}

/// The rule indices of a cycle error (empty for other errors).
pub open spec fn cycle_of(e: ErrorView) -> Seq<usize> {
    match e {
        ErrorView::Cyclic(c) => c,
        _ => Seq::empty(),
    }
}

/// Every error of `es` is a cycle of `rs` that passes through no rule
/// twice, and no two list the same set of rules.
pub open spec fn cycles_reported(rs: Seq<RuleView>, es: Seq<ErrorView>) -> bool {
    &&& forall|i: int| 0 <= i < es.len() ==> (#[trigger] es[i]) is Cyclic && is_cycle(rs, cycle_of(es[i]))
        && cycle_of(es[i]).no_duplicates()
    &&& forall|i: int, j: int|
        0 <= i < j < es.len() ==> cycle_of(#[trigger] es[i]).to_set() != cycle_of(#[trigger] es[j]).to_set()
}

/// `ns` with `x` added at the end unless it is there already.
pub open spec fn add_name(ns: Seq<Seq<char>>, x: Seq<char>) -> Seq<Seq<char>> {
    if ns.contains(x) {
        ns
    } else {
        ns.push(x)
    }
}

/// The nodes of the rule graph in first-seen order: each rule's input,
/// then its target.
pub open spec fn node_names(rs: Seq<RuleView>) -> Seq<Seq<char>>
    decreases rs.len(),
{
    if rs.len() == 0 {
        Seq::empty()
    } else {
        add_name(add_name(node_names(rs.drop_last()), rs.last().input), target_of(rs.last()))
    }
}

/// The number of node `x`: its position among the nodes.
pub open spec fn node_id(ns: Seq<Seq<char>>, x: Seq<char>) -> usize {
    (choose|i: int| 0 <= i < ns.len() && ns[i] == x) as usize
}

/// The node each rule starts from.
pub open spec fn rule_sources(rs: Seq<RuleView>) -> Seq<usize> {
    Seq::new(rs.len(), |r: int| node_id(node_names(rs), rs[r].input))
}

/// The node each rule leads to.
pub open spec fn rule_targets(rs: Seq<RuleView>) -> Seq<usize> {
    Seq::new(rs.len(), |r: int| node_id(node_names(rs), target_of(rs[r])))
}

/// The names of a list of nodes.
pub open spec fn name_views(ns: Seq<Vec<char>>) -> Seq<Seq<char>> {
    ns.map_values(|v: Vec<char>| v@)
}

/// The edges out of node `u` among the first `n` rules, as (target, rule)
/// pairs in rule order.
pub open spec fn edges_from(ins: Seq<usize>, outs: Seq<usize>, u: usize, n: int) -> Seq<(usize, usize)>
    decreases n,
{
    if n <= 0 {
        Seq::empty()
    } else if ins[n - 1] == u {
        edges_from(ins, outs, u, n - 1).push((outs[n - 1], (n - 1) as usize))
    } else {
        edges_from(ins, outs, u, n - 1)
    }
}

/// The distinct values of `s`, in first-seen order.
pub open spec fn first_seen(s: Seq<usize>) -> Seq<usize>
    decreases s.len(),
{
    if s.len() == 0 {
        Seq::empty()
    } else if first_seen(s.drop_last()).contains(s.last()) {
        first_seen(s.drop_last())
    } else {
        first_seen(s.drop_last()).push(s.last())
    }
}

/// The state of the depth-first search: node colors, the stack of (node,
/// next edge) frames, the search path of (node, rule that entered it), the
/// cycles found, and the next root to start from.
pub type SearchState = (Seq<u8>, Seq<(usize, usize)>, Seq<(usize, Option<usize>)>, Seq<Seq<usize>>, int);

/// The index lists of the cycles found so far.
pub open spec fn seen_views(seen: Seq<Vec<usize>>) -> Seq<Seq<usize>> {
    seen.map_values(|v: Vec<usize>| v@)
}

/// The position of node `t` on the search path.
pub open spec fn path_pos(path: Seq<(usize, Option<usize>)>, t: usize) -> int {
    choose|p: int| 0 <= p < path.len() && path[p].0 == t
}

/// The cycle closed by rule `rule` from the end of the search path back to
/// its node `t`: the rules that entered the later path nodes, then `rule`.
pub open spec fn closed_cycle(path: Seq<(usize, Option<usize>)>, t: usize, rule: usize) -> Seq<usize> {
    let start = path_pos(path, t);
    Seq::new((path.len() - start - 1) as nat, |q: int| path[start + 1 + q].1->0).push(rule)
}

/// `found` with the cycle `c` added unless a cycle over the same rules is
/// already there.
pub open spec fn add_cycle(found: Seq<Seq<usize>>, c: Seq<usize>) -> Seq<Seq<usize>> {
    if exists|j: int| 0 <= j < found.len() && (#[trigger] found[j]).to_set() == c.to_set() {
        found
    } else {
        found.push(c)
    }
}

/// One step of the search: with an empty stack, start from the next root
/// unless it is already black; otherwise follow the top frame's next edge
/// (pushing a white target, recording the cycle an edge to a gray target
/// closes, passing over a black one), or turn the top node black and pop
/// it when its edges are exhausted.
pub open spec fn search_step(ins: Seq<usize>, outs: Seq<usize>, s: SearchState) -> SearchState {
    let (color, stack, path, found, k) = s;
    let roots = first_seen(ins);
    if stack.len() == 0 {
        if k >= roots.len() {
            s
        } else if color[roots[k] as int] == BLACK {
            (color, stack, path, found, k + 1)
        } else {
            let root = roots[k];
            (color.update(root as int, GRAY), seq![(root, 0usize)], seq![(root, None::<usize>)], found, k + 1)
        }
    } else {
        let (node, cursor) = stack.last();
        let es = edges_from(ins, outs, node, ins.len() as int);
        if cursor < es.len() {
            let (target, rule) = es[cursor as int];
            let advanced_stack = stack.update(stack.len() - 1, (node, (cursor + 1) as usize));
            if color[target as int] == WHITE {
                (
                    color.update(target as int, GRAY),
                    advanced_stack.push((target, 0usize)),
                    path.push((target, Some(rule))),
                    found,
                    k,
                )
            } else if color[target as int] == GRAY {
                (color, advanced_stack, path, add_cycle(found, closed_cycle(path, target, rule)), k)
            } else {
                (color, advanced_stack, path, found, k)
            }
        } else {
            (color.update(node as int, BLACK), stack.drop_last(), path.drop_last(), found, k)
        }
    }
}

/// The search has started from every root and emptied its stack.
pub open spec fn search_done(ins: Seq<usize>, s: SearchState) -> bool {
    s.1.len() == 0 && s.4 >= first_seen(ins).len()
}

/// The state after `n` steps from `s`, stopping once the search is done.
pub open spec fn search_run(ins: Seq<usize>, outs: Seq<usize>, s: SearchState, n: nat) -> SearchState
    decreases n,
{
    if n == 0 || search_done(ins, s) {
        s
    } else {
        search_run(ins, outs, search_step(ins, outs, s), (n - 1) as nat)
    }
}

/// The initial state: every node white, nothing found, the first root next.
pub open spec fn search_start(nn: nat) -> SearchState {
    (Seq::new(nn, |i: int| WHITE), Seq::empty(), Seq::empty(), Seq::empty(), 0)
}

/// The cycles the completed search finds, in the order it finds them.
pub open spec fn search_cycles(ins: Seq<usize>, outs: Seq<usize>, nn: nat) -> Seq<Seq<usize>> {
    let n = choose|n: nat| search_done(ins, search_run(ins, outs, search_start(nn), n));
    search_run(ins, outs, search_start(nn), n).3
}

/// The cycles the depth-first search finds in the graph of `rs`, its nodes
/// numbered in first-seen order (see [`node_names`]).
pub open spec fn rule_cycles(rs: Seq<RuleView>) -> Seq<Seq<usize>> {
    search_cycles(rule_sources(rs), rule_targets(rs), node_names(rs).len())
}

/// The cycles as validation errors.
pub open spec fn cycle_errors(cs: Seq<Seq<usize>>) -> Seq<ErrorView> {
    cs.map_values(|c: Seq<usize>| ErrorView::Cyclic(c))
}

/// One more step of a run that is not yet done is one more search step.
proof fn lemma_run_succ(ins: Seq<usize>, outs: Seq<usize>, s: SearchState, n: nat)
    ensures
        !search_done(ins, search_run(ins, outs, s, n)) ==> search_run(ins, outs, s, n + 1) == search_step(
            ins,
            outs,
            search_run(ins, outs, s, n),
        ),
        search_done(ins, search_run(ins, outs, s, n)) ==> search_run(ins, outs, s, n + 1) == search_run(
            ins,
            outs,
            s,
            n,
        ),
    decreases n,
{
    reveal_with_fuel(search_run, 2);
    if n > 0 && !search_done(ins, s) {
        lemma_run_succ(ins, outs, search_step(ins, outs, s), (n - 1) as nat);
    }
}

/// Once done, a run stays where it is.
proof fn lemma_run_stays(ins: Seq<usize>, outs: Seq<usize>, s: SearchState, a: nat, b: nat)
    requires
        search_done(ins, search_run(ins, outs, s, a)),
        a <= b,
    ensures
        search_run(ins, outs, s, b) == search_run(ins, outs, s, a),
    decreases b - a,
{
    if a < b {
        lemma_run_stays(ins, outs, s, a, (b - 1) as nat);
        lemma_run_succ(ins, outs, s, (b - 1) as nat);
    }
}

/// A run that is done after `n` steps finds what the search finds.
proof fn lemma_run_result(ins: Seq<usize>, outs: Seq<usize>, nn: nat, n: nat)
    requires
        search_done(ins, search_run(ins, outs, search_start(nn), n)),
    ensures
        search_cycles(ins, outs, nn) == search_run(ins, outs, search_start(nn), n).3,
{
    let s0 = search_start(nn);
    let m = choose|m: nat| search_done(ins, search_run(ins, outs, s0, m));
    assert(search_done(ins, search_run(ins, outs, s0, m)));
    if m <= n {
        lemma_run_stays(ins, outs, s0, m, n);
    } else {
        lemma_run_stays(ins, outs, s0, n, m);
    }
}

/// Node colors of the depth-first search.
pub const WHITE: u8 = 0;
pub const GRAY: u8 = 1;
pub const BLACK: u8 = 2;

/// The names in `ns` are pairwise different.
pub open spec fn names_distinct(ns: Seq<Vec<char>>) -> bool {
    forall|i: int, j: int| 0 <= i < ns.len() && 0 <= j < ns.len() && i != j ==> (#[trigger] ns[i])@ != (#[trigger] ns[j])@
}

/// The index of the node named `s`, added if it is new.
fn node_index(names: &mut Vec<Vec<char>>, s: Vec<char>) -> (id: usize)
    requires
        names_distinct(old(names)@),
    ensures
        names_distinct(final(names)@),
        id < final(names)@.len(),
        final(names)@[id as int]@ == s@,
        final(names)@.len() >= old(names)@.len(),
        forall|i: int| 0 <= i < old(names)@.len() ==> #[trigger] final(names)@[i] == old(names)@[i],
        name_views(final(names)@) == add_name(name_views(old(names)@), s@),
{
    let mut i: usize = 0;
    while i < names.len()
        invariant
            i <= names@.len(),
            names_distinct(names@),
            forall|j: int| 0 <= j < i ==> (#[trigger] names@[j])@ != s@,
        decreases names@.len() - i,
    {
        if same_chars(&names[i], &s) {
            proof {
                assert(name_views(names@)[i as int] == s@);
            }
            return i;
        }
        i += 1;
    }
    proof {
        assert(!name_views(names@).contains(s@)) by {
            if name_views(names@).contains(s@) {
                let j = choose|j: int| 0 <= j < name_views(names@).len() && name_views(names@)[j] == s@;
                assert(names@[j]@ == s@);
            }
        }
    }
    let ghost before = names@;
    names.push(s);
    proof {
        assert(name_views(names@) =~= name_views(before).push(s@));
    }
    names.len() - 1
}

/// `cyc` lists edges (rules) each ending where the next begins, the last
/// ending where the first begins.
pub open spec fn id_cycle(ins: Seq<usize>, outs: Seq<usize>, cyc: Seq<usize>) -> bool {
    &&& cyc.len() > 0
    &&& forall|k: int| 0 <= k < cyc.len() ==> (#[trigger] cyc[k]) < ins.len()
    &&& forall|k: int| 0 <= k < cyc.len() ==> outs[(#[trigger] cyc[k]) as int] == ins[cyc[(k + 1) % (cyc.len() as int)] as int]
}

/// Number every rule's input and target node in first-seen order (see
/// [`node_names`]): rule `r` is an edge from node `ins[r]` to node
/// `outs[r]`, and a target equals an input exactly when their numbers do.
fn index_rules(rules: &Vec<TransformationRule>) -> (res: (usize, Vec<usize>, Vec<usize>))
    ensures
        res.1@.len() == rules@.len(),
        res.2@.len() == rules@.len(),
        forall|r: int| 0 <= r < rules@.len() ==> (#[trigger] res.1@[r]) < res.0 && res.2@[r] < res.0,
        forall|a: int, b: int|
            0 <= a < rules@.len() && 0 <= b < rules@.len() ==> ((target_of(rules@[a]@) == rules@[b]@.input) == (
            #[trigger] res.2@[a] == #[trigger] res.1@[b])),
        res.0 == node_names(rule_views(rules@)).len(),
        res.1@ == rule_sources(rule_views(rules@)),
        res.2@ == rule_targets(rule_views(rules@)),
{
    let mut names: Vec<Vec<char>> = Vec::new();
    let mut ins: Vec<usize> = Vec::new();
    let mut outs: Vec<usize> = Vec::new();
    let mut i: usize = 0;
    while i < rules.len()
        invariant
            i <= rules@.len(),
            ins@.len() == i,
            outs@.len() == i,
            names_distinct(names@),
            forall|r: int|
                0 <= r < i ==> (#[trigger] ins@[r]) < names@.len() && outs@[r] < names@.len() && names@[ins@[r] as int]@
                    == rules@[r]@.input && names@[outs@[r] as int]@ == target_of(rules@[r]@),
            name_views(names@) == node_names(rule_views(rules@).take(i as int)),
        decreases rules@.len() - i,
    {
        proof {
            assert(rule_views(rules@).take(i + 1).drop_last() =~= rule_views(rules@).take(i as int));
            assert(rule_views(rules@).take(i + 1).last() == rules@[i as int]@);
        }
        let ghost names0 = names@;
        let ghost ins0 = ins@;
        let ghost outs0 = outs@;
        let a = node_index(&mut names, crate::text::chars_of(rules[i].input_sequence.as_str()));
        let ghost names1 = names@;
        let mut t: Vec<char> = Vec::new();
        t.push(rules[i].output_char);
        let b = node_index(&mut names, t);
        ins.push(a);
        outs.push(b);
        proof {
            assert(t@ =~= target_of(rules@[i as int]@));
            assert(names@[a as int] == names1[a as int]);
            assert forall|r: int| 0 <= r < i + 1 implies (#[trigger] ins@[r]) < names@.len() && outs@[r] < names@.len()
                && names@[ins@[r] as int]@ == rules@[r]@.input && names@[outs@[r] as int]@ == target_of(rules@[r]@) by {
                if r < i {
                    assert(ins@[r] == ins0[r]);
                    assert(outs@[r] == outs0[r]);
                    assert(ins0[r] < names0.len());
                    assert(names@[ins0[r] as int] == names1[ins0[r] as int]);
                    assert(names1[ins0[r] as int] == names0[ins0[r] as int]);
                    assert(names@[outs0[r] as int] == names1[outs0[r] as int]);
                    assert(names1[outs0[r] as int] == names0[outs0[r] as int]);
                }
            }
        }
        i += 1;
    }
    proof {
        let rs0 = rule_views(rules@);
        assert(rs0.take(rules@.len() as int) =~= rs0);
        let nv = name_views(names@);
        assert(nv == node_names(rs0));
        assert forall|r: int| 0 <= r < rs0.len() implies #[trigger] ins@[r] == rule_sources(rs0)[r] by {
            assert(ins@[r] < names@.len());
            assert(nv[ins@[r] as int] == rs0[r].input);
            let c = choose|c: int| 0 <= c < nv.len() && nv[c] == rs0[r].input;
            assert(names@[c]@ == names@[ins@[r] as int]@);
        }
        assert forall|r: int| 0 <= r < rs0.len() implies #[trigger] outs@[r] == rule_targets(rs0)[r] by {
            assert(ins@[r] < names@.len());
            assert(nv[outs@[r] as int] == target_of(rs0[r]));
            let c = choose|c: int| 0 <= c < nv.len() && nv[c] == target_of(rs0[r]);
            assert(names@[c]@ == names@[outs@[r] as int]@);
        }
        assert(ins@ =~= rule_sources(rs0));
        assert(outs@ =~= rule_targets(rs0));
        assert forall|a: int, b: int| 0 <= a < rules@.len() && 0 <= b < rules@.len() implies ((target_of(rules@[a]@)
            == rules@[b]@.input) == (#[trigger] outs@[a] == #[trigger] ins@[b])) by {
            assert(ins@[a] < names@.len());
            assert(ins@[b] < names@.len());
            if target_of(rules@[a]@) == rules@[b]@.input && outs@[a] != ins@[b] {
                assert(names@[outs@[a] as int]@ == names@[ins@[b] as int]@);
            }
        }
    }
    (names.len(), ins, outs)
}

/// The outgoing edges of every node, as (target, rule) pairs in rule order.
fn build_adjacency(nn: usize, ins: &Vec<usize>, outs: &Vec<usize>) -> (adj: Vec<Vec<(usize, usize)>>)
    requires
        ins@.len() == outs@.len(),
        forall|r: int| 0 <= r < ins@.len() ==> (#[trigger] ins@[r]) < nn && outs@[r] < nn,
    ensures
        edges_ok(adj@, ins@, outs@, nn as nat),
        forall|r: int| 0 <= r < ins@.len() ==> adj@[(#[trigger] ins@[r]) as int]@.contains((outs@[r], r as usize)),
        forall|v: int| 0 <= v < nn ==> (#[trigger] adj@[v])@ == edges_from(ins@, outs@, v as usize, ins@.len() as int),
{
    let mut adj: Vec<Vec<(usize, usize)>> = Vec::new();
    let mut u: usize = 0;
    while u < nn
        invariant
            u <= nn,
            adj@.len() == u,
            forall|v: int| 0 <= v < u ==> (#[trigger] adj@[v])@.len() == 0,
        decreases nn - u,
    {
        adj.push(Vec::new());
        u += 1;
    }
    let mut r: usize = 0;
    while r < ins.len()
        invariant
            r <= ins@.len() == outs@.len(),
            forall|q: int| 0 <= q < ins@.len() ==> (#[trigger] ins@[q]) < nn && outs@[q] < nn,
            adj@.len() == nn,
            forall|v: int, j: int|
                0 <= v < nn && 0 <= j < adj@[v]@.len() ==> (#[trigger] adj@[v]@[j]).1 < r && ins@[adj@[v]@[j].1 as int]
                    == v && outs@[adj@[v]@[j].1 as int] == adj@[v]@[j].0,
            forall|q: int| 0 <= q < r ==> adj@[(#[trigger] ins@[q]) as int]@.contains((outs@[q], q as usize)),
            forall|v: int| 0 <= v < nn ==> (#[trigger] adj@[v])@ == edges_from(ins@, outs@, v as usize, r as int),
        decreases ins@.len() - r,
    {
        let u = ins[r];
        let ghost before = adj@;
        adj[u].push((outs[r], r));
        proof {
            assert forall|v: int| 0 <= v < nn implies (#[trigger] adj@[v])@ == edges_from(
                ins@,
                outs@,
                v as usize,
                r + 1,
            ) by {
                if v != u {
                    assert(adj@[v] == before[v]);
                }
            }
            assert forall|q: int| 0 <= q < r + 1 implies adj@[(#[trigger] ins@[q]) as int]@.contains((outs@[q], q as usize)) by {
                if q == r {
                    assert(adj@[u as int]@[adj@[u as int]@.len() - 1] == (outs@[q], q as usize));
                } else {
                    let j = choose|j: int| 0 <= j < before[ins@[q] as int]@.len() && before[ins@[q] as int]@[j] == (outs@[q], q as usize);
                    assert(adj@[ins@[q] as int]@[j] == before[ins@[q] as int]@[j]);
                }
            }
        }
        r += 1;
    }
    adj
}

/// The adjacency lists describe exactly edges of the rule graph.
pub open spec fn edges_ok(adj: Seq<Vec<(usize, usize)>>, ins: Seq<usize>, outs: Seq<usize>, nn: nat) -> bool {
    &&& adj.len() == nn
    &&& ins.len() == outs.len()
    &&& forall|r: int| 0 <= r < ins.len() ==> (#[trigger] ins[r]) < nn && outs[r] < nn
    &&& forall|u: int, j: int|
        0 <= u < nn && 0 <= j < adj[u]@.len() ==> (#[trigger] adj[u]@[j]).1 < ins.len() && ins[adj[u]@[j].1 as int]
            == u && outs[adj[u]@[j].1 as int] == adj[u]@[j].0
}

/// The distinct input nodes, in first-seen order.
fn distinct_inputs(ins: &Vec<usize>) -> (roots: Vec<usize>)
    ensures
        forall|r: int| 0 <= r < ins@.len() ==> roots@.contains(#[trigger] ins@[r]),
        forall|i: int| 0 <= i < roots@.len() ==> ins@.contains(#[trigger] roots@[i]),
        roots@ == first_seen(ins@),
{
    let mut roots: Vec<usize> = Vec::new();
    let mut r: usize = 0;
    while r < ins.len()
        invariant
            r <= ins@.len(),
            forall|q: int| 0 <= q < r ==> roots@.contains(#[trigger] ins@[q]),
            forall|i: int| 0 <= i < roots@.len() ==> ins@.contains(#[trigger] roots@[i]),
            roots@ == first_seen(ins@.take(r as int)),
        decreases ins@.len() - r,
    {
        let u = ins[r];
        let mut seen = false;
        let mut i: usize = 0;
        while i < roots.len()
            invariant
                i <= roots@.len(),
                seen ==> roots@.contains(u),
                !seen ==> forall|j: int| 0 <= j < i ==> roots@[j] != u,
            decreases roots@.len() - i,
        {
            if roots[i] == u {
                seen = true;
                assert(roots@[i as int] == u);
            }
            i += 1;
        }
        let ghost before = roots@;
        if !seen {
            roots.push(u);
            proof {
                assert(roots@[roots@.len() - 1] == u);
            }
        }
        proof {
            assert(ins@.take(r + 1).drop_last() =~= ins@.take(r as int));
            assert(ins@.take(r + 1).last() == u);
            if seen {
                assert(before.contains(u));
            } else {
                assert(!before.contains(u)) by {
                    if before.contains(u) {
                        let j = choose|j: int| 0 <= j < before.len() && before[j] == u;
                    }
                }
            }
            assert(roots@ == first_seen(ins@.take(r + 1)));
            assert forall|q: int| 0 <= q < r + 1 implies roots@.contains(#[trigger] ins@[q]) by {
                if q < r {
                    let j = choose|j: int| 0 <= j < before.len() && before[j] == ins@[q];
                    assert(roots@[j] == ins@[q]);
                }
            }
            assert forall|i: int| 0 <= i < roots@.len() implies ins@.contains(#[trigger] roots@[i]) by {
                if i < before.len() {
                    assert(roots@[i] == before[i]);
                } else {
                    assert(ins@[r as int] == u);
                }
            }
        }
        r += 1;
    }
    assert(ins@.take(ins@.len() as int) =~= ins@);
    roots
}

/// Every element of `a` occurs in `b`.
fn all_in(a: &Vec<usize>, b: &Vec<usize>) -> (r: bool)
    ensures
        r == (forall|i: int| 0 <= i < a@.len() ==> b@.contains(#[trigger] a@[i])),
{
    let mut i: usize = 0;
    while i < a.len()
        invariant
            i <= a@.len(),
            forall|k: int| 0 <= k < i ==> b@.contains(#[trigger] a@[k]),
        decreases a@.len() - i,
    {
        let x = a[i];
        let mut found = false;
        let mut j: usize = 0;
        while j < b.len()
            invariant
                j <= b@.len(),
                found ==> b@.contains(x),
                !found ==> forall|k: int| 0 <= k < j ==> b@[k] != x,
            decreases b@.len() - j,
        {
            if b[j] == x {
                found = true;
                assert(b@[j as int] == x);
            }
            j += 1;
        }
        if !found {
            assert(!b@.contains(a@[i as int]));
            return false;
        }
        i += 1;
    }
    true
}

/// `a` and `b` hold the same set of indices.
fn same_set(a: &Vec<usize>, b: &Vec<usize>) -> (r: bool)
    ensures
        r == (a@.to_set() == b@.to_set()),
{
    let ab = all_in(a, b);
    let ba = all_in(b, a);
    proof {
        if ab && ba {
            assert forall|x: usize| a@.to_set().contains(x) == b@.to_set().contains(x) by {
                if a@.contains(x) {
                    let i = choose|i: int| 0 <= i < a@.len() && a@[i] == x;
                    assert(b@.contains(a@[i]));
                }
                if b@.contains(x) {
                    let i = choose|i: int| 0 <= i < b@.len() && b@[i] == x;
                    assert(a@.contains(b@[i]));
                }
            }
            assert(a@.to_set() =~= b@.to_set());
        }
        if !ab {
            let i = choose|i: int| 0 <= i < a@.len() && !b@.contains(#[trigger] a@[i]);
            assert(a@.to_set().contains(a@[i]));
            assert(!b@.to_set().contains(a@[i]));
        }
        if !ba {
            let i = choose|i: int| 0 <= i < b@.len() && !a@.contains(#[trigger] b@[i]);
            assert(b@.to_set().contains(b@[i]));
            assert(!a@.to_set().contains(b@[i]));
        }
    }
    ab && ba
}

/// The number of white nodes.
pub open spec fn count_white(c: Seq<u8>) -> nat
    decreases c.len(),
{
    if c.len() == 0 {
        0
    } else {
        count_white(c.drop_last()) + if c.last() == WHITE {
            1nat
        } else {
            0nat
        }
    }
}

proof fn lemma_count_white_update(c: Seq<u8>, i: int, v: u8)
    requires
        0 <= i < c.len(),
    ensures
        c[i] == WHITE && v != WHITE ==> count_white(c.update(i, v)) + 1 == count_white(c),
        c[i] != WHITE && v != WHITE ==> count_white(c.update(i, v)) == count_white(c),
    decreases c.len(),
{
    if i < c.len() - 1 {
        assert(c.update(i, v).drop_last() =~= c.drop_last().update(i, v));
        lemma_count_white_update(c.drop_last(), i, v);
    } else {
        assert(c.update(i, v).drop_last() =~= c.drop_last());
    }
}

/// The number of edges the stack frames have yet to explore.
pub open spec fn remaining(adj: Seq<Vec<(usize, usize)>>, stack: Seq<(usize, usize)>) -> int
    decreases stack.len(),
{
    if stack.len() == 0 {
        0
    } else {
        remaining(adj, stack.drop_last()) + (adj[stack.last().0 as int]@.len() - stack.last().1)
    }
}

proof fn lemma_remaining_nonneg(adj: Seq<Vec<(usize, usize)>>, stack: Seq<(usize, usize)>)
    requires
        forall|p: int| 0 <= p < stack.len() ==> (#[trigger] stack[p]).1 <= adj[stack[p].0 as int]@.len(),
    ensures
        remaining(adj, stack) >= 0,
    decreases stack.len(),
{
    if stack.len() > 0 {
        lemma_remaining_nonneg(adj, stack.drop_last());
    }
}

/// The stack frames and the gray path agree: each frame's node is gray and
/// on the path at the same depth, gray nodes are exactly the frames' nodes,
/// and each frame below the top entered the next one through the edge just
/// before its cursor, recorded on the path.
pub open spec fn stack_ok(
    adj: Seq<Vec<(usize, usize)>>,
    nn: nat,
    color: Seq<u8>,
    stack: Seq<(usize, usize)>,
    path: Seq<(usize, Option<usize>)>,
) -> bool {
    &&& color.len() == nn
    &&& forall|u: int| 0 <= u < nn ==> #[trigger] color[u] <= BLACK
    &&& path.len() == stack.len()
    &&& forall|p: int|
        0 <= p < stack.len() ==> (#[trigger] stack[p]).0 < nn && path[p].0 == stack[p].0 && color[stack[p].0 as int] == GRAY
            && stack[p].1 <= adj[stack[p].0 as int]@.len()
    &&& forall|p: int, q: int| 0 <= p < stack.len() && 0 <= q < stack.len() && p != q ==> (#[trigger] stack[p]).0 != (#[trigger] stack[q]).0
    &&& forall|u: int| 0 <= u < nn && #[trigger] color[u] == GRAY ==> exists|p: int| 0 <= p < stack.len() && #[trigger] stack[p].0 == u
    &&& forall|p: int|
        0 < p < stack.len() ==> stack[p - 1].1 > 0 && (#[trigger] path[p]).1 is Some && adj[stack[p - 1].0 as int]@[stack[p - 1].1
            - 1] == (stack[p].0, path[p].1->0)
}

/// Black nodes have finishing times below `clock`, and every edge out of a
/// black node leads to a black node that finished earlier; every edge a
/// frame has explored (but the one leading to the frame above) leads to a
/// black node.
pub open spec fn finish_ok(
    adj: Seq<Vec<(usize, usize)>>,
    nn: nat,
    color: Seq<u8>,
    stack: Seq<(usize, usize)>,
    fin: Seq<int>,
    clock: int,
) -> bool {
    &&& fin.len() == nn
    &&& clock >= 0
    &&& forall|u: int| 0 <= u < nn && #[trigger] color[u] == BLACK ==> 0 <= fin[u] < clock
    &&& forall|u: int, j: int|
        0 <= u < nn && color[u] == BLACK && 0 <= j < adj[u]@.len() ==> color[(#[trigger] adj[u]@[j]).0 as int] == BLACK
            && fin[adj[u]@[j].0 as int] < fin[u]
    &&& forall|p: int, j: int|
        0 <= p < stack.len() && 0 <= j < stack[p].1 && !(p + 1 < stack.len() && j == stack[p].1 - 1) ==> color[(
        #[trigger] adj[stack[p].0 as int]@[j]).0 as int] == BLACK
}

/// The reported cycles: parallel lists of rule indices and errors, each a
/// cycle, no two with the same set of rules.
pub open spec fn found_ok(ins: Seq<usize>, outs: Seq<usize>, seen: Seq<Vec<usize>>, errors: Seq<ValidationError>) -> bool {
    &&& errors.len() == seen.len()
    &&& forall|i: int| 0 <= i < seen.len() ==> error_view(#[trigger] errors[i]) == ErrorView::Cyclic(seen[i]@)
    &&& forall|i: int| 0 <= i < seen.len() ==> id_cycle(ins, outs, (#[trigger] seen[i])@)
    &&& forall|i: int| 0 <= i < seen.len() ==> (#[trigger] seen[i])@.no_duplicates()
    &&& forall|i: int, j: int| 0 <= i < j < seen.len() ==> (#[trigger] seen[i])@.to_set() != (#[trigger] seen[j])@.to_set()
}

/// A rule graph whose edges all go from a later-finished node to an
/// earlier-finished one has no cycle.
proof fn lemma_no_id_cycle(ins: Seq<usize>, outs: Seq<usize>, fin: Seq<int>, cyc: Seq<usize>)
    requires
        forall|r: int| 0 <= r < ins.len() ==> fin[outs[r] as int] < fin[(#[trigger] ins[r]) as int],
    ensures
        !id_cycle(ins, outs, cyc),
{
    if id_cycle(ins, outs, cyc) {
        let l = cyc.len() as int;
        lemma_cycle_descends(ins, outs, fin, cyc, l - 1);
        vstd::arithmetic::div_mod::lemma_mod_self_0(l);
        let r = cyc[l - 1];
        assert(outs[r as int] == ins[cyc[(l - 1 + 1) % l] as int]);
        assert(fin[outs[r as int] as int] < fin[ins[r as int] as int]);
    }
}

proof fn lemma_cycle_descends(ins: Seq<usize>, outs: Seq<usize>, fin: Seq<int>, cyc: Seq<usize>, k: int)
    requires
        id_cycle(ins, outs, cyc),
        forall|r: int| 0 <= r < ins.len() ==> fin[outs[r] as int] < fin[(#[trigger] ins[r]) as int],
        0 <= k < cyc.len(),
    ensures
        fin[ins[cyc[k] as int] as int] <= fin[ins[cyc[0] as int] as int] - k,
    decreases k,
{
    let l = cyc.len() as int;
    if k > 0 {
        lemma_cycle_descends(ins, outs, fin, cyc, k - 1);
        vstd::arithmetic::div_mod::lemma_small_mod(k as nat, l as nat);
        let r = cyc[k - 1];
        assert(outs[r as int] == ins[cyc[(k - 1 + 1) % l] as int]);
        assert(fin[outs[r as int] as int] < fin[ins[r as int] as int]);
    }
}

/// Exploring an edge to a white node pushes it, gray, on the stack.
proof fn lemma_explore_white(
    adj: Seq<Vec<(usize, usize)>>,
    ins: Seq<usize>,
    outs: Seq<usize>,
    nn: nat,
    color: Seq<u8>,
    stack: Seq<(usize, usize)>,
    path: Seq<(usize, Option<usize>)>,
    fin: Seq<int>,
    clock: int,
    c1: usize,
)
    requires
        edges_ok(adj, ins, outs, nn),
        stack_ok(adj, nn, color, stack, path),
        stack.len() > 0,
        c1 == stack.last().1 + 1,
        stack.last().1 < adj[stack.last().0 as int]@.len(),
        color[adj[stack.last().0 as int]@[stack.last().1 as int].0 as int] == WHITE,
    ensures
        ({
            let top = stack.len() - 1;
            let node = stack.last().0;
            let c = stack.last().1;
            let (t, r) = adj[node as int]@[c as int];
            let stack1 = stack.update(top, (node, c1)).push((t, 0usize));
            let path1 = path.push((t, Some(r)));
            let color1 = color.update(t as int, GRAY);
            &&& stack_ok(adj, nn, color1, stack1, path1)
            &&& finish_ok(adj, nn, color, stack, fin, clock) ==> finish_ok(adj, nn, color1, stack1, fin, clock)
            &&& count_white(color1) < count_white(color)
            &&& forall|u: int| 0 <= u < nn && color[u] == BLACK ==> #[trigger] color1[u] == BLACK
            &&& stack1[0].0 == stack[0].0
        }),
{
    let top = stack.len() - 1;
    let node = stack.last().0;
    let c = stack.last().1;
    let (t, r) = adj[node as int]@[c as int];
    let stack1 = stack.update(top, (node, c1)).push((t, 0usize));
    let path1 = path.push((t, Some(r)));
    let color1 = color.update(t as int, GRAY);
    assert(stack[top] == stack.last());
    assert(t < nn);
    lemma_count_white_update(color, t as int, GRAY);
    assert forall|p: int| 0 <= p < stack.len() implies (#[trigger] stack[p]).0 != t by {
        assert(color[stack[p].0 as int] == GRAY);
    }
    assert forall|p: int|
        0 <= p < stack1.len() implies (#[trigger] stack1[p]).0 < nn && path1[p].0 == stack1[p].0 && color1[stack1[p].0 as int]
            == GRAY && stack1[p].1 <= adj[stack1[p].0 as int]@.len() by {
        if p < stack.len() {
            assert(stack1[p].0 == stack[p].0);
            assert(path1[p] == path[p]);
        }
    }
    assert forall|p: int, q: int|
        0 <= p < stack1.len() && 0 <= q < stack1.len() && p != q implies (#[trigger] stack1[p]).0 != (#[trigger] stack1[q]).0 by {
        if p < stack.len() && q < stack.len() {
            assert(stack1[p].0 == stack[p].0);
            assert(stack1[q].0 == stack[q].0);
        } else if p < stack.len() {
            assert(stack1[p].0 == stack[p].0);
        } else if q < stack.len() {
            assert(stack1[q].0 == stack[q].0);
        }
    }
    assert forall|u: int| 0 <= u < nn && #[trigger] color1[u] == GRAY implies exists|p: int|
        0 <= p < stack1.len() && #[trigger] stack1[p].0 == u by {
        if u == t {
            assert(stack1[stack.len() as int].0 == u);
        } else {
            let p = choose|p: int| 0 <= p < stack.len() && #[trigger] stack[p].0 == u;
            assert(stack1[p].0 == u);
        }
    }
    assert forall|p: int| 0 < p < stack1.len() implies stack1[p - 1].1 > 0 && (#[trigger] path1[p]).1 is Some && adj[stack1[p
        - 1].0 as int]@[stack1[p - 1].1 - 1] == (stack1[p].0, path1[p].1->0) by {
        if p < stack.len() {
            assert(path1[p] == path[p]);
            assert(stack1[p].0 == stack[p].0);
            assert(stack1[p - 1] == stack[p - 1]);
        } else {
            assert(stack1[p - 1] == (node, c1));
            assert(stack1[p] == (t, 0usize));
            assert(path1[p] == (t, Some(r)));
        }
    }
    if finish_ok(adj, nn, color, stack, fin, clock) {
        assert forall|u: int, j: int|
            0 <= u < nn && color1[u] == BLACK && 0 <= j < adj[u]@.len() implies color1[(#[trigger] adj[u]@[j]).0 as int]
                == BLACK && fin[adj[u]@[j].0 as int] < fin[u] by {
            assert(color[u] == BLACK);
            assert(adj[u]@[j].0 != t);
        }
        assert forall|p: int, j: int|
            0 <= p < stack1.len() && 0 <= j < stack1[p].1 && !(p + 1 < stack1.len() && j == stack1[p].1 - 1) implies color1[(
            #[trigger] adj[stack1[p].0 as int]@[j]).0 as int] == BLACK by {
            if p < top {
                assert(stack1[p] == stack[p]);
            }
            assert(p < stack.len());
            assert(stack1[p].0 == stack[p].0);
            assert(color[adj[stack[p].0 as int]@[j].0 as int] == BLACK);
        }
    }
}

/// Exploring an edge to a gray or black node only advances the cursor.
/// The stack with its top frame's cursor moved to `c1`.
pub open spec fn advanced(stack: Seq<(usize, usize)>, c1: usize) -> Seq<(usize, usize)> {
    stack.update(stack.len() - 1, (stack.last().0, c1))
}

proof fn lemma_explore_other(
    adj: Seq<Vec<(usize, usize)>>,
    ins: Seq<usize>,
    outs: Seq<usize>,
    nn: nat,
    color: Seq<u8>,
    stack: Seq<(usize, usize)>,
    path: Seq<(usize, Option<usize>)>,
    fin: Seq<int>,
    clock: int,
    c1: usize,
)
    requires
        edges_ok(adj, ins, outs, nn),
        stack_ok(adj, nn, color, stack, path),
        stack.len() > 0,
        c1 == stack.last().1 + 1,
        stack.last().1 < adj[stack.last().0 as int]@.len(),
        color[adj[stack.last().0 as int]@[stack.last().1 as int].0 as int] != WHITE,
    ensures
        stack_ok(adj, nn, color, advanced(stack, c1), path),
        color[adj[stack.last().0 as int]@[stack.last().1 as int].0 as int] == BLACK && finish_ok(adj, nn, color, stack, fin, clock)
            ==> finish_ok(adj, nn, color, advanced(stack, c1), fin, clock),
        remaining(adj, advanced(stack, c1)) < remaining(adj, stack),
        advanced(stack, c1)[0].0 == stack[0].0,
{
    let top = stack.len() - 1;
    let node = stack.last().0;
    let c = stack.last().1;
    let stack1 = advanced(stack, c1);
    assert(stack[top] == stack.last());
    assert(c + 1 <= adj[node as int]@.len());
    assert(stack1.drop_last() =~= stack.drop_last());
    assert(stack1.last() == (node, c1));
    assert(stack1[top] == (node, c1));
    assert forall|p: int|
        0 <= p < stack1.len() implies (#[trigger] stack1[p]).0 < nn && path[p].0 == stack1[p].0 && color[stack1[p].0 as int]
            == GRAY && stack1[p].1 <= adj[stack1[p].0 as int]@.len() by {
        assert(stack1[p].0 == stack[p].0);
        if p != top {
            assert(stack1[p] == stack[p]);
        }
    }
    assert forall|p: int, q: int|
        0 <= p < stack1.len() && 0 <= q < stack1.len() && p != q implies (#[trigger] stack1[p]).0 != (#[trigger] stack1[q]).0 by {
        assert(stack1[p].0 == stack[p].0);
        assert(stack1[q].0 == stack[q].0);
    }
    assert forall|u: int| 0 <= u < nn && #[trigger] color[u] == GRAY implies exists|p: int|
        0 <= p < stack1.len() && #[trigger] stack1[p].0 == u by {
        let p = choose|p: int| 0 <= p < stack.len() && #[trigger] stack[p].0 == u;
        assert(stack1[p].0 == u);
    }
    assert forall|p: int| 0 < p < stack1.len() implies stack1[p - 1].1 > 0 && (#[trigger] path[p]).1 is Some && adj[stack1[p
        - 1].0 as int]@[stack1[p - 1].1 - 1] == (stack1[p].0, path[p].1->0) by {
        assert(stack1[p - 1] == stack[p - 1]);
        assert(stack1[p].0 == stack[p].0);
    }
    if color[adj[node as int]@[c as int].0 as int] == BLACK && finish_ok(adj, nn, color, stack, fin, clock) {
        assert forall|p: int, j: int|
            0 <= p < stack1.len() && 0 <= j < stack1[p].1 && !(p + 1 < stack1.len() && j == stack1[p].1 - 1) implies color[(
            #[trigger] adj[stack1[p].0 as int]@[j]).0 as int] == BLACK by {
            if p < top {
                assert(stack1[p] == stack[p]);
            } else {
                assert(stack1[p].0 == node);
            }
        }
    }
}

/// A frame whose edges are all explored turns black and is popped.
proof fn lemma_finish_top(
    adj: Seq<Vec<(usize, usize)>>,
    ins: Seq<usize>,
    outs: Seq<usize>,
    nn: nat,
    color: Seq<u8>,
    stack: Seq<(usize, usize)>,
    path: Seq<(usize, Option<usize>)>,
    fin: Seq<int>,
    clock: int,
)
    requires
        edges_ok(adj, ins, outs, nn),
        stack_ok(adj, nn, color, stack, path),
        stack.len() > 0,
        stack.last().1 == adj[stack.last().0 as int]@.len(),
    ensures
        ({
            let node = stack.last().0;
            let color1 = color.update(node as int, BLACK);
            let fin1 = fin.update(node as int, clock);
            &&& stack_ok(adj, nn, color1, stack.drop_last(), path.drop_last())
            &&& finish_ok(adj, nn, color, stack, fin, clock) ==> finish_ok(
                adj,
                nn,
                color1,
                stack.drop_last(),
                fin1,
                clock + 1,
            )
            &&& count_white(color1) == count_white(color)
            &&& remaining(adj, stack.drop_last()) == remaining(adj, stack)
            &&& forall|u: int| 0 <= u < nn && color[u] == BLACK ==> #[trigger] color1[u] == BLACK
            &&& color1[node as int] == BLACK
        }),
{
    let top = stack.len() - 1;
    let node = stack.last().0;
    let color1 = color.update(node as int, BLACK);
    let fin1 = fin.update(node as int, clock);
    let stack1 = stack.drop_last();
    let path1 = path.drop_last();
    assert(stack[top] == stack.last());
    lemma_count_white_update(color, node as int, BLACK);
    assert forall|p: int|
        0 <= p < stack1.len() implies (#[trigger] stack1[p]).0 < nn && path1[p].0 == stack1[p].0 && color1[stack1[p].0 as int]
            == GRAY && stack1[p].1 <= adj[stack1[p].0 as int]@.len() by {
        assert(stack1[p] == stack[p]);
        assert(stack[p].0 != stack[top].0);
    }
    assert forall|p: int, q: int|
        0 <= p < stack1.len() && 0 <= q < stack1.len() && p != q implies (#[trigger] stack1[p]).0 != (#[trigger] stack1[q]).0 by {
        assert(stack1[p] == stack[p]);
        assert(stack1[q] == stack[q]);
    }
    assert forall|u: int| 0 <= u < nn && #[trigger] color1[u] == GRAY implies exists|p: int|
        0 <= p < stack1.len() && #[trigger] stack1[p].0 == u by {
        let p = choose|p: int| 0 <= p < stack.len() && #[trigger] stack[p].0 == u;
        assert(p != top);
        assert(stack1[p].0 == u);
    }
    assert forall|p: int| 0 < p < stack1.len() implies stack1[p - 1].1 > 0 && (#[trigger] path1[p]).1 is Some && adj[stack1[p
        - 1].0 as int]@[stack1[p - 1].1 - 1] == (stack1[p].0, path1[p].1->0) by {
        assert(stack1[p - 1] == stack[p - 1]);
        assert(stack1[p] == stack[p]);
        assert(path1[p] == path[p]);
    }
    if finish_ok(adj, nn, color, stack, fin, clock) {
        assert forall|u: int| 0 <= u < nn && #[trigger] color1[u] == BLACK implies 0 <= fin1[u] < clock + 1 by {
            if u != node {
                assert(color[u] == BLACK);
            }
        }
        assert forall|u: int, j: int|
            0 <= u < nn && color1[u] == BLACK && 0 <= j < adj[u]@.len() implies color1[(#[trigger] adj[u]@[j]).0 as int]
                == BLACK && fin1[adj[u]@[j].0 as int] < fin1[u] by {
            let v = adj[u]@[j].0;
            if u == node {
                assert(color[v as int] == BLACK);
                assert(v != node);
            } else {
                assert(color[u] == BLACK);
                assert(color[v as int] == BLACK);
                assert(v != node);
            }
        }
        assert forall|p: int, j: int|
            0 <= p < stack1.len() && 0 <= j < stack1[p].1 && !(p + 1 < stack1.len() && j == stack1[p].1 - 1) implies color1[(
            #[trigger] adj[stack1[p].0 as int]@[j]).0 as int] == BLACK by {
            assert(stack1[p] == stack[p]);
            if p + 1 < stack.len() && j == stack[p].1 - 1 {
                assert(p + 1 == top);
                assert(adj[stack[p].0 as int]@[j].0 == stack[top].0);
            }
        }
    }
}

/// The rules entering each frame above `start`, then `closing`, form a cycle
/// when `closing` leads from the top frame back to frame `start`.
proof fn lemma_back_edge_cycle(
    adj: Seq<Vec<(usize, usize)>>,
    ins: Seq<usize>,
    outs: Seq<usize>,
    nn: nat,
    color: Seq<u8>,
    stack: Seq<(usize, usize)>,
    path: Seq<(usize, Option<usize>)>,
    start: int,
    closing: usize,
)
    requires
        edges_ok(adj, ins, outs, nn),
        stack_ok(adj, nn, color, stack, path),
        0 <= start < stack.len(),
        closing < ins.len(),
        ins[closing as int] == stack.last().0,
        outs[closing as int] == stack[start].0,
    ensures
        id_cycle(ins, outs, Seq::new((stack.len() - start - 1) as nat, |q: int| path[start + 1 + q].1->0).push(closing)),
        Seq::new((stack.len() - start - 1) as nat, |q: int| path[start + 1 + q].1->0).push(closing).no_duplicates(),
{
    let len = stack.len() as int;
    let cyc = Seq::new((len - start - 1) as nat, |q: int| path[start + 1 + q].1->0).push(closing);
    let l = cyc.len() as int;
    assert(l == len - start);
    assert forall|q: int| 0 <= q < l - 1 implies ins[cyc[q] as int] == stack[start + q].0 && outs[cyc[q] as int] == stack[start
        + 1 + q].0 && cyc[q] < ins.len() by {
        let p = start + 1 + q;
        assert(cyc[q] == path[p].1->0);
        assert(0 < p < stack.len());
        assert(path[p].1 is Some);
        let e = adj[stack[p - 1].0 as int]@[stack[p - 1].1 - 1];
        assert(e == (stack[p].0, path[p].1->0));
        assert(stack[p - 1].0 < nn);
        assert(0 <= stack[p - 1].1 - 1 < adj[stack[p - 1].0 as int]@.len());
    }
    assert(cyc[l - 1] == closing);
    assert(stack.last() == stack[len - 1]);
    assert forall|a: int, b: int| 0 <= a < l && 0 <= b < l && a != b implies cyc[a] != cyc[b] by {
        let na = if a < l - 1 { start + 1 + a } else { start };
        let nb = if b < l - 1 { start + 1 + b } else { start };
        assert(outs[cyc[a] as int] == stack[na].0);
        assert(outs[cyc[b] as int] == stack[nb].0);
        assert(na != nb);
    }
    assert forall|k: int| 0 <= k < l implies (#[trigger] cyc[k]) < ins.len() by {}
    assert forall|k: int| 0 <= k < l implies outs[(#[trigger] cyc[k]) as int] == ins[cyc[(k + 1) % l] as int] by {
        vstd::arithmetic::div_mod::lemma_mod_self_0(l);
        if k < l - 1 {
            vstd::arithmetic::div_mod::lemma_small_mod((k + 1) as nat, l as nat);
            if k + 1 < l - 1 {
                assert(ins[cyc[k + 1] as int] == stack[start + k + 1].0);
            } else {
                assert(start + 1 + k == len - 1);
            }
        } else {
            assert((k + 1) % l == 0);
            if l > 1 {
                assert(ins[cyc[0] as int] == stack[start].0);
            } else {
                assert(start == len - 1);
            }
        }
    }
}

/// Search depth-first from the white node `root` until it turns black,
/// reporting every cycle closed by an edge back to the search path. Returns
/// the finishing times and clock after the search.
fn search_from(
    root: usize,
    adj: &Vec<Vec<(usize, usize)>>,
    color: &mut Vec<u8>,
    seen: &mut Vec<Vec<usize>>,
    errors: &mut Vec<ValidationError>,
    Ghost(ins): Ghost<Seq<usize>>,
    Ghost(outs): Ghost<Seq<usize>>,
    Ghost(nn): Ghost<nat>,
    Ghost(fin0): Ghost<Seq<int>>,
    Ghost(clock0): Ghost<int>,
    Ghost(k): Ghost<int>,
    Ghost(n0): Ghost<nat>,
) -> (res: Ghost<(Seq<int>, int, nat)>)
    requires
        0 <= k < first_seen(ins).len(),
        first_seen(ins)[k] == root,
        forall|v: int| 0 <= v < nn ==> (#[trigger] adj@[v])@ == edges_from(ins, outs, v as usize, ins.len() as int),
        search_run(ins, outs, search_start(nn), n0) == (
            old(color)@,
            Seq::<(usize, usize)>::empty(),
            Seq::<(usize, Option<usize>)>::empty(),
            seen_views(old(seen)@),
            k,
        ),
        edges_ok(adj@, ins, outs, nn),
        root < nn,
        old(color)@[root as int] == WHITE,
        stack_ok(adj@, nn, old(color)@, Seq::empty(), Seq::empty()),
        found_ok(ins, outs, old(seen)@, old(errors)@),
        old(errors)@.len() == 0 ==> finish_ok(adj@, nn, old(color)@, Seq::empty(), fin0, clock0),
    ensures
        stack_ok(adj@, nn, final(color)@, Seq::empty(), Seq::empty()),
        final(color)@[root as int] == BLACK,
        forall|u: int| 0 <= u < nn && old(color)@[u] == BLACK ==> #[trigger] final(color)@[u] == BLACK,
        found_ok(ins, outs, final(seen)@, final(errors)@),
        final(errors)@.len() == 0 ==> finish_ok(adj@, nn, final(color)@, Seq::empty(), res@.0, res@.1),
        final(errors)@.len() == 0 ==> old(errors)@.len() == 0,
        search_run(ins, outs, search_start(nn), res@.2) == (
            final(color)@,
            Seq::<(usize, usize)>::empty(),
            Seq::<(usize, Option<usize>)>::empty(),
            seen_views(final(seen)@),
            k + 1,
        ),
{
    let ghost color0 = color@;
    let ghost mut fin = fin0;
    let ghost mut clock = clock0;
    let ghost s_start: SearchState = (color@, Seq::empty(), Seq::empty(), seen_views(seen@), k);
    proof {
        lemma_count_white_update(color@, root as int, GRAY);
        lemma_run_succ(ins, outs, search_start(nn), n0);
    }
    color.set(root, GRAY);
    let mut stack: Vec<(usize, usize)> = Vec::new();
    stack.push((root, 0));
    let mut path: Vec<(usize, Option<usize>)> = Vec::new();
    path.push((root, None));
    let ghost mut n: nat = n0 + 1;
    proof {
        assert(color0[root as int] != BLACK);
        assert(stack@ =~= seq![(root, 0usize)]);
        assert(path@ =~= seq![(root, None::<usize>)]);
        assert(search_step(ins, outs, s_start) == (color@, stack@, path@, seen_views(seen@), k + 1));
    }
    proof {
        let st = stack@;
        assert forall|uu: int| 0 <= uu < nn && #[trigger] color@[uu] == GRAY implies exists|p: int|
            0 <= p < st.len() && #[trigger] st[p].0 == uu by {
            assert(st[0].0 == root);
        }
        assert(stack_ok(adj@, nn, color@, stack@, path@));
        if errors@.len() == 0 {
            assert forall|u: int| 0 <= u < nn && #[trigger] color@[u] == BLACK implies 0 <= fin[u] < clock by {
                assert(color0[u] == BLACK);
            }
            assert(finish_ok(adj@, nn, color@, stack@, fin, clock));
        }
    }
    while stack.len() > 0
        invariant
            edges_ok(adj@, ins, outs, nn),
            root < nn,
            stack_ok(adj@, nn, color@, stack@, path@),
            forall|u: int| 0 <= u < nn && color0[u] == BLACK ==> #[trigger] color@[u] == BLACK,
            stack@.len() > 0 ==> stack@[0].0 == root,
            stack@.len() == 0 ==> color@[root as int] == BLACK,
            found_ok(ins, outs, seen@, errors@),
            errors@.len() == 0 ==> finish_ok(adj@, nn, color@, stack@, fin, clock),
            errors@.len() == 0 ==> old(errors)@.len() == 0,
            forall|v: int| 0 <= v < nn ==> (#[trigger] adj@[v])@ == edges_from(ins, outs, v as usize, ins.len() as int),
            search_run(ins, outs, search_start(nn), n) == (color@, stack@, path@, seen_views(seen@), k + 1),
        decreases count_white(color@), remaining(adj@, stack@), stack@.len(),
    {
        let ghost s_before: SearchState = (color@, stack@, path@, seen_views(seen@), k + 1);
        proof {
            lemma_remaining_nonneg(adj@, stack@);
            lemma_run_succ(ins, outs, search_start(nn), n);
        }
        let top = stack.len() - 1;
        let node = stack[top].0;
        let cursor = stack[top].1;
        proof {
            assert(stack@[top as int] == stack@.last());
        }
        if cursor < adj[node].len() {
            let target = adj[node][cursor].0;
            let rule_idx = adj[node][cursor].1;
            proof {
                assert(adj@[node as int]@[cursor as int] == (target, rule_idx));
            }
            let c = color[target];
            let next = cursor + 1;
            if c == WHITE {
                proof {
                    lemma_explore_white(adj@, ins, outs, nn, color@, stack@, path@, fin, clock, next);
                }
                stack.set(top, (node, next));
                color.set(target, GRAY);
                path.push((target, Some(rule_idx)));
                stack.push((target, 0));
                proof {
                    assert(search_step(ins, outs, s_before) == (color@, stack@, path@, seen_views(seen@), k + 1));
                }
            } else {
                proof {
                    lemma_explore_other(adj@, ins, outs, nn, color@, stack@, path@, fin, clock, next);
                }
                if c == GRAY {
                    record_cycle(
                        seen,
                        errors,
                        &path,
                        target,
                        rule_idx,
                        Ghost(adj@),
                        Ghost(ins),
                        Ghost(outs),
                        Ghost(nn),
                        Ghost(color@),
                        Ghost(stack@),
                    );
                }
                let ghost stack_pre = stack@;
                stack.set(top, (node, next));
                proof {
                    assert(stack@ == advanced(stack_pre, next));
                    assert(search_step(ins, outs, s_before) == (color@, stack@, path@, seen_views(seen@), k + 1));
                }
            }
            proof {
                lemma_remaining_nonneg(adj@, stack@);
            }
        } else {
            proof {
                lemma_finish_top(adj@, ins, outs, nn, color@, stack@, path@, fin, clock);
                fin = fin.update(node as int, clock);
                clock = clock + 1;
            }
            color.set(node, BLACK);
            path.pop();
            stack.pop();
            proof {
                lemma_remaining_nonneg(adj@, stack@);
                assert(search_step(ins, outs, s_before) == (color@, stack@, path@, seen_views(seen@), k + 1));
            }
        }
        proof {
            n = n + 1;
        }
    }
    proof {
        assert(stack@ =~= Seq::<(usize, usize)>::empty());
        assert(path@ =~= Seq::<(usize, Option<usize>)>::empty());
    }
    Ghost((fin, clock, n))
}

/// An id cycle of the numbered rule graph is a cycle of the rules, and back.
proof fn lemma_cycle_transfer(rules: Seq<TransformationRule>, ins: Seq<usize>, outs: Seq<usize>, cyc: Seq<usize>)
    requires
        ins.len() == rules.len(),
        outs.len() == rules.len(),
        forall|a: int, b: int|
            0 <= a < rules.len() && 0 <= b < rules.len() ==> ((target_of(rules[a]@) == rules[b]@.input) == (
            #[trigger] outs[a] == #[trigger] ins[b])),
    ensures
        is_cycle(rule_views(rules), cyc) == id_cycle(ins, outs, cyc),
{
    let rs = rule_views(rules);
    assert forall|rr: int| 0 <= rr < rules.len() implies rs[rr] == #[trigger] rules[rr]@ by {}
    if cyc.len() > 0 {
        let l = cyc.len() as int;
        if forall|k: int| 0 <= k < l ==> (#[trigger] cyc[k]) < rules.len() {
            assert forall|kk: int| 0 <= kk < l implies (target_of(rs[(#[trigger] cyc[kk]) as int]) == rs[cyc[(kk + 1)
                % l] as int].input) == (outs[cyc[kk] as int] == ins[cyc[(kk + 1) % l] as int]) by {
                let nk = (kk + 1) % l;
                assert(0 <= nk < l);
                assert(cyc[nk] < rules.len());
            }
        }
    }
}

/// With every input node black and no cycle reported, finishing times
/// decrease along every edge, so the rules have no cycle.
proof fn lemma_search_acyclic(
    rules: Seq<TransformationRule>,
    ins: Seq<usize>,
    outs: Seq<usize>,
    adj: Seq<Vec<(usize, usize)>>,
    nn: nat,
    color: Seq<u8>,
    roots: Seq<usize>,
    fin: Seq<int>,
    clock: int,
)
    requires
        ins.len() == rules.len(),
        outs.len() == rules.len(),
        forall|a: int, b: int|
            0 <= a < rules.len() && 0 <= b < rules.len() ==> ((target_of(rules[a]@) == rules[b]@.input) == (
            #[trigger] outs[a] == #[trigger] ins[b])),
        edges_ok(adj, ins, outs, nn),
        forall|r: int| 0 <= r < ins.len() ==> adj[(#[trigger] ins[r]) as int]@.contains((outs[r], r as usize)),
        forall|r: int| 0 <= r < ins.len() ==> roots.contains(#[trigger] ins[r]),
        forall|i: int| 0 <= i < roots.len() ==> color[#[trigger] roots[i] as int] == BLACK,
        finish_ok(adj, nn, color, Seq::empty(), fin, clock),
    ensures
        !has_cycle(rule_views(rules)),
{
    assert forall|rr: int| 0 <= rr < ins.len() implies fin[outs[rr] as int] < fin[(#[trigger] ins[rr]) as int] by {
        assert(roots.contains(ins[rr]));
        let i = choose|i: int| 0 <= i < roots.len() && roots[i] == ins[rr];
        assert(color[roots[i] as int] == BLACK);
        assert(adj[ins[rr] as int]@.contains((outs[rr], rr as usize)));
        let j = choose|j: int| 0 <= j < adj[ins[rr] as int]@.len() && adj[ins[rr] as int]@[j] == (outs[rr], rr as usize);
        assert(adj[ins[rr] as int]@[j].0 == outs[rr]);
    }
    assert forall|cyc: Seq<usize>| !is_cycle(rule_views(rules), cyc) by {
        lemma_no_id_cycle(ins, outs, fin, cyc);
        lemma_cycle_transfer(rules, ins, outs, cyc);
    }
}

/// Each reported cycle is a cycle of the rules, and no two list the same
/// set of rules.
proof fn lemma_reported_cycles(
    rules: Seq<TransformationRule>,
    ins: Seq<usize>,
    outs: Seq<usize>,
    seen: Seq<Vec<usize>>,
    errors: Seq<ValidationError>,
)
    requires
        ins.len() == rules.len(),
        outs.len() == rules.len(),
        forall|a: int, b: int|
            0 <= a < rules.len() && 0 <= b < rules.len() ==> ((target_of(rules[a]@) == rules[b]@.input) == (
            #[trigger] outs[a] == #[trigger] ins[b])),
        found_ok(ins, outs, seen, errors),
    ensures
        cycles_reported(rule_views(rules), error_views(errors)),
{
    let rs = rule_views(rules);
    let ev = error_views(errors);
    assert forall|i: int| 0 <= i < errors.len() implies (#[trigger] ev[i]) is Cyclic && is_cycle(rs, cycle_of(ev[i])) by {
        assert(ev[i] == error_view(errors[i]));
        assert(id_cycle(ins, outs, seen[i]@));
        assert(seen[i]@.no_duplicates());
        lemma_cycle_transfer(rules, ins, outs, seen[i]@);
    }
    assert forall|i: int, j: int| 0 <= i < j < errors.len() implies cycle_of(#[trigger] ev[i]).to_set() != cycle_of(
        #[trigger] ev[j],
    ).to_set() by {
        assert(ev[i] == error_view(errors[i]));
        assert(ev[j] == error_view(errors[j]));
    }
}

/// The rule cycles a depth-first search of the rule graph meets: each edge
/// that leads back to a node on the current search path closes a cycle,
/// reported once per set of rules. The search starts from every input
/// sequence in first-seen order and follows each node's rules in order; the
/// result is exactly [`rule_cycles`].
pub fn detect_cycles(rules: &Vec<TransformationRule>) -> (r: Vec<ValidationError>)
    ensures
        cycles_reported(rule_views(rules@), error_views(r@)),
        r@.len() == 0 <==> !has_cycle(rule_views(rules@)),
        error_views(r@) == cycle_errors(rule_cycles(rule_views(rules@))),
{
    let (nn, ins, outs) = index_rules(rules);
    let adj = build_adjacency(nn, &ins, &outs);
    let roots = distinct_inputs(&ins);
    let mut color: Vec<u8> = Vec::new();
    let mut u: usize = 0;
    while u < nn
        invariant
            u <= nn,
            color@.len() == u,
            forall|v: int| 0 <= v < u ==> #[trigger] color@[v] == WHITE,
        decreases nn - u,
    {
        color.push(WHITE);
        u += 1;
    }
    let mut seen: Vec<Vec<usize>> = Vec::new();
    let mut errors: Vec<ValidationError> = Vec::new();
    let ghost mut fin: Seq<int> = Seq::new(nn as nat, |i: int| 0int);
    let ghost mut clock: int = 0;
    let ghost mut n: nat = 0;
    proof {
        assert(color@ =~= search_start(nn as nat).0);
        assert(seen_views(seen@) =~= Seq::<Seq<usize>>::empty());
        assert forall|i: int| 0 <= i < roots@.len() implies #[trigger] roots@[i] < nn by {
            assert(ins@.contains(roots@[i]));
        }
        assert(stack_ok(adj@, nn as nat, color@, Seq::empty(), Seq::empty()));
        assert(finish_ok(adj@, nn as nat, color@, Seq::empty(), fin, clock));
    }
    let mut k: usize = 0;
    while k < roots.len()
        invariant
            k <= roots@.len(),
            edges_ok(adj@, ins@, outs@, nn as nat),
            forall|i: int| 0 <= i < roots@.len() ==> #[trigger] roots@[i] < nn,
            stack_ok(adj@, nn as nat, color@, Seq::empty(), Seq::empty()),
            forall|i: int| 0 <= i < k ==> color@[#[trigger] roots@[i] as int] == BLACK,
            found_ok(ins@, outs@, seen@, errors@),
            errors@.len() == 0 ==> finish_ok(adj@, nn as nat, color@, Seq::empty(), fin, clock),
            roots@ == first_seen(ins@),
            forall|v: int| 0 <= v < nn ==> (#[trigger] adj@[v])@ == edges_from(ins@, outs@, v as usize, ins@.len() as int),
            search_run(ins@, outs@, search_start(nn as nat), n) == (
                color@,
                Seq::<(usize, usize)>::empty(),
                Seq::<(usize, Option<usize>)>::empty(),
                seen_views(seen@),
                k as int,
            ),
        decreases roots@.len() - k,
    {
        let root = roots[k];
        proof {
            lemma_run_succ(ins@, outs@, search_start(nn as nat), n);
        }
        if color[root] == BLACK {
            proof {
                n = n + 1;
            }
        }
        if color[root] != BLACK {
            proof {
                assert(color@[root as int] != GRAY) by {
                    if color@[root as int] == GRAY {
                        let p = choose|p: int| 0 <= p < Seq::<(usize, usize)>::empty().len() && #[trigger] Seq::<(usize, usize)>::empty()[p].0 == root;
                    }
                }
            }
            let ghost color_before = color@;
            let res = search_from(
                root,
                &adj,
                &mut color,
                &mut seen,
                &mut errors,
                Ghost(ins@),
                Ghost(outs@),
                Ghost(nn as nat),
                Ghost(fin),
                Ghost(clock),
                Ghost(k as int),
                Ghost(n),
            );
            proof {
                fin = res@.0;
                clock = res@.1;
                n = res@.2;
                assert forall|i: int| 0 <= i < k implies color@[#[trigger] roots@[i] as int] == BLACK by {
                    assert(color_before[roots@[i] as int] == BLACK);
                }
            }
        }
        k += 1;
    }
    proof {
        lemma_run_result(ins@, outs@, nn as nat, n);
        assert(error_views(errors@) =~= cycle_errors(seen_views(seen@)));
        lemma_reported_cycles(rules@, ins@, outs@, seen@, errors@);
        if errors@.len() == 0 {
            lemma_search_acyclic(rules@, ins@, outs@, adj@, nn as nat, color@, roots@, fin, clock);
        } else {
            assert(is_cycle(rule_views(rules@), cycle_of(error_views(errors@)[0])));
        }
    }
    errors
}

/// Report the cycle closed by the edge `closing` from the top of the search
/// path back to its node `target`, unless a cycle over the same rules was
/// already reported.
fn record_cycle(
    seen: &mut Vec<Vec<usize>>,
    errors: &mut Vec<ValidationError>,
    path: &Vec<(usize, Option<usize>)>,
    target: usize,
    closing: usize,
    Ghost(adj): Ghost<Seq<Vec<(usize, usize)>>>,
    Ghost(ins): Ghost<Seq<usize>>,
    Ghost(outs): Ghost<Seq<usize>>,
    Ghost(nn): Ghost<nat>,
    Ghost(color): Ghost<Seq<u8>>,
    Ghost(stack): Ghost<Seq<(usize, usize)>>,
)
    requires
        edges_ok(adj, ins, outs, nn),
        stack_ok(adj, nn, color, stack, path@),
        stack.len() > 0,
        exists|p: int| 0 <= p < stack.len() && #[trigger] stack[p].0 == target,
        closing < ins.len(),
        ins[closing as int] == stack.last().0,
        outs[closing as int] == target,
        found_ok(ins, outs, old(seen)@, old(errors)@),
    ensures
        found_ok(ins, outs, final(seen)@, final(errors)@),
        final(errors)@.len() > 0,
        seen_views(final(seen)@) == add_cycle(seen_views(old(seen)@), closed_cycle(path@, target, closing)),
{
    let mut start: usize = 0;
    while start < path.len() && path[start].0 != target
        invariant
            start <= path@.len(),
            stack_ok(adj, nn, color, stack, path@),
            exists|p: int| 0 <= p < stack.len() && #[trigger] stack[p].0 == target,
            forall|q: int| 0 <= q < start ==> path@[q].0 != target,
        decreases path@.len() - start,
    {
        start += 1;
    }
    proof {
        let p = choose|p: int| 0 <= p < stack.len() && #[trigger] stack[p].0 == target;
        assert(path@[p].0 == target);
        assert(start <= p);
    }
    let mut cycle_rules: Vec<usize> = Vec::new();
    let mut q: usize = start + 1;
    while q < path.len()
        invariant
            start < path@.len(),
            start + 1 <= q <= path@.len(),
            stack_ok(adj, nn, color, stack, path@),
            cycle_rules@ == Seq::new((q - start - 1) as nat, |i: int| path@[start + 1 + i].1->0),
        decreases path@.len() - q,
    {
        proof {
            assert(path@[q as int].1 is Some);
        }
        match path[q].1 {
            Some(ri) => {
                cycle_rules.push(ri);
            },
            None => {},
        }
        proof {
            assert(cycle_rules@ =~= Seq::new((q + 1 - start - 1) as nat, |i: int| path@[start + 1 + i].1->0));
        }
        q += 1;
    }
    cycle_rules.push(closing);
    proof {
        let p = choose|p: int| 0 <= p < stack.len() && #[trigger] stack[p].0 == target;
        assert(path@[start as int].0 == target);
        let pp = path_pos(path@, target);
        assert(0 <= pp < path@.len() && path@[pp].0 == target);
        assert(stack[pp].0 == stack[start as int].0);
        assert(pp == start);
        assert(cycle_rules@ =~= closed_cycle(path@, target, closing));
        assert(path@[start as int].0 == stack[start as int].0);
        lemma_back_edge_cycle(adj, ins, outs, nn, color, stack, path@, start as int, closing);
    }
    let mut dup = false;
    let mut i: usize = 0;
    while i < seen.len()
        invariant
            i <= seen@.len(),
            dup ==> exists|j: int| 0 <= j < seen@.len() && (#[trigger] seen@[j])@.to_set() == cycle_rules@.to_set(),
            !dup ==> forall|j: int| 0 <= j < i ==> (#[trigger] seen@[j])@.to_set() != cycle_rules@.to_set(),
        decreases seen@.len() - i,
    {
        if same_set(&seen[i], &cycle_rules) {
            dup = true;
        }
        i += 1;
    }
    let ghost sv0 = seen_views(seen@);
    proof {
        let c = closed_cycle(path@, target, closing);
        if dup {
            let j = choose|j: int| 0 <= j < seen@.len() && (#[trigger] seen@[j])@.to_set() == cycle_rules@.to_set();
            assert(sv0[j].to_set() == c.to_set());
        } else {
            assert forall|j: int| 0 <= j < sv0.len() implies (#[trigger] sv0[j]).to_set() != c.to_set() by {
                assert(sv0[j] == seen@[j]@);
            }
        }
    }
    if !dup {
        let copy = copy_indices(&cycle_rules);
        let ghost seen0 = seen@;
        let ghost errors0 = errors@;
        seen.push(copy);
        errors.push(ValidationError::CyclicRule { rules: cycle_rules });
        proof {
            assert forall|a: int, b: int| 0 <= a < b < seen@.len() implies (#[trigger] seen@[a])@.to_set() != (
            #[trigger] seen@[b])@.to_set() by {
                if b < seen0.len() {
                    assert(seen@[a] == seen0[a]);
                    assert(seen@[b] == seen0[b]);
                } else {
                    assert(seen@[a] == seen0[a]);
                }
            }
            assert forall|a: int| 0 <= a < seen@.len() implies error_view(#[trigger] errors@[a]) == ErrorView::Cyclic(
                seen@[a]@,
            ) by {
                if a < seen0.len() {
                    assert(errors@[a] == errors0[a]);
                }
            }
            assert forall|a: int| 0 <= a < seen@.len() implies id_cycle(ins, outs, (#[trigger] seen@[a])@) by {
                if a < seen0.len() {
                    assert(seen@[a] == seen0[a]);
                }
            }
            assert forall|a: int| 0 <= a < seen@.len() implies (#[trigger] seen@[a])@.no_duplicates() by {
                if a < seen0.len() {
                    assert(seen@[a] == seen0[a]);
                }
            }
            assert(seen_views(seen@) =~= sv0.push(cycle_rules@));
        }
    }
}

fn copy_indices(v: &Vec<usize>) -> (r: Vec<usize>)
    ensures
        r@ == v@,
{
    let mut r: Vec<usize> = Vec::new();
    let mut i: usize = 0;
    while i < v.len()
        invariant
            i <= v@.len(),
            r@ == v@.take(i as int),
        decreases v@.len() - i,
    {
        r.push(v[i]);
        assert(v@.take(i as int + 1) == v@.take(i as int).push(v@[i as int]));
        i += 1;
    }
    assert(v@.take(v@.len() as int) =~= v@);
    r
}

/// Errors that can occur while parsing a configuration file.
#[derive(Debug, Clone, PartialEq)]
pub enum ParseError {
    /// A syntax error in the JSON/TOML text, with a 1-based line number
    /// (0 when unknown).
    SyntaxError { line: usize, message: String },
    /// A required field (`id`, `name` or `rules`) is missing.
    MissingField { field: String },
    /// A transformation rule is invalid.
    InvalidRule { rule_index: usize, message: String },
    /// The file exceeds [`MAX_CONFIG_FILE_SIZE`].
    FileTooLarge { size: usize, max: usize },
}

/// A parse error as a value.
pub enum ParseErrorView {
    Syntax(usize, Seq<char>),
    Missing(Seq<char>),
    Invalid(usize, Seq<char>),
    TooLarge(usize, usize),
}

/// The value of a parse error.
pub open spec fn parse_error_view(e: ParseError) -> ParseErrorView {
    match e {
        ParseError::SyntaxError { line, message } => ParseErrorView::Syntax(line, message@),
        ParseError::MissingField { field } => ParseErrorView::Missing(field@),
        ParseError::InvalidRule { rule_index, message } => ParseErrorView::Invalid(rule_index, message@),
        ParseError::FileTooLarge { size, max } => ParseErrorView::TooLarge(size, max),
    }
}

/// The human-readable description of a parse error.
pub open spec fn describe_error(e: ParseErrorView) -> Seq<char> {
    match e {
        ParseErrorView::Syntax(line, message) => "syntax error at line "@ + crate::text::decimal(line as nat) + ": "@
            + message,
        ParseErrorView::Missing(field) => "missing required field: `"@ + field + "`"@,
        ParseErrorView::Invalid(i, message) => "invalid rule at index "@ + crate::text::decimal(i as nat) + ": "@
            + message,
        ParseErrorView::TooLarge(size, max) => "configuration file too large: "@ + crate::text::decimal(size as nat)
            + " bytes (maximum "@ + crate::text::decimal(max as nat) + " bytes)"@,
    }
}

impl ParseError {
    /// The human-readable description of this error.
    pub fn describe(&self) -> (r: String)
        ensures
            r@ == describe_error(parse_error_view(*self)),
    {
        let mut out = String::new();
        match self {
            ParseError::SyntaxError { line, message } => {
                out.append("syntax error at line ");
                crate::text::push_decimal(&mut out, *line as u64);
                out.append(": ");
                out.append(message.as_str());
            },
            ParseError::MissingField { field } => {
                out.append("missing required field: `");
                out.append(field.as_str());
                out.append("`");
            },
            ParseError::InvalidRule { rule_index, message } => {
                out.append("invalid rule at index ");
                crate::text::push_decimal(&mut out, *rule_index as u64);
                out.append(": ");
                out.append(message.as_str());
            },
            ParseError::FileTooLarge { size, max } => {
                out.append("configuration file too large: ");
                crate::text::push_decimal(&mut out, *size as u64);
                out.append(" bytes (maximum ");
                crate::text::push_decimal(&mut out, *max as u64);
                out.append(" bytes)");
            },
        }
        proof {
            assert(out@ =~= describe_error(parse_error_view(*self)));
        }
        out
    }
}

/// What a format decoder reports when it cannot decode a configuration.
#[derive(Debug, Clone, PartialEq)]
pub enum DecodeError {
    /// JSON decoding failed: the decoder's message, whether the text was
    /// well-formed JSON that does not fit the schema, and the 1-based line
    /// the decoder reports.
    Json { message: String, data: bool, line: usize },
    /// TOML decoding failed: the decoder's message and the byte offset at
    /// which the offending text starts, when known.
    Toml { message: String, offset: Option<usize> },
}

/// The first index at or after `i` where `pat` occurs in `s`, or -1.
pub open spec fn find_from(s: Seq<char>, pat: Seq<char>, i: int) -> int
    decreases s.len() + 1 - i,
{
    if i < 0 || i + pat.len() > s.len() {
        -1
    } else if s.subrange(i, i + pat.len()) == pat {
        i
    } else {
        find_from(s, pat, i + 1)
    }
}

/// A found occurrence lies at or after the start and within the text.
proof fn lemma_find_from_bounds(s: Seq<char>, pat: Seq<char>, i: int)
    ensures
        find_from(s, pat, i) >= 0 ==> (i <= find_from(s, pat, i) && find_from(s, pat, i) + pat.len() <= s.len()),
    decreases s.len() + 1 - i,
{
    if i < 0 || i + pat.len() > s.len() {
    } else if s.subrange(i, i + pat.len()) == pat {
    } else {
        lemma_find_from_bounds(s, pat, i + 1);
    }
}

/// The field named in a "missing field `x`" message: the text between the
/// first two backquotes after the first "missing field"; `None` when there
/// is no such text.
pub open spec fn missing_field_of(message: Seq<char>) -> Option<Seq<char>> {
    let idx = find_from(message, "missing field"@, 0);
    if idx < 0 {
        None
    } else {
        let rest = message.skip(idx + "missing field"@.len());
        let open = find_from(rest, seq!['`'], 0);
        if open < 0 {
            None
        } else {
            let start = open + 1;
            let close = find_from(rest.skip(start), seq!['`'], 0);
            if close < 0 {
                None
            } else {
                Some(rest.subrange(start, start + close))
            }
        }
    }
}

/// The first index at or after `from` where `pat` occurs in `s`.
fn find_chars(s: &Vec<char>, pat: &Vec<char>, from: usize) -> (r: Option<usize>)
    ensures
        match r {
            Some(i) => i as int == find_from(s@, pat@, from as int) && from <= i && i + pat@.len() <= s@.len(),
            None => find_from(s@, pat@, from as int) == -1,
        },
{
    proof {
        lemma_find_from_bounds(s@, pat@, from as int);
    }
    let mut i = from;
    while i <= s.len() && pat.len() <= s.len() - i
        invariant
            from <= i,
            find_from(s@, pat@, from as int) == find_from(s@, pat@, i as int),
        decreases s@.len() + 1 - i,
    {
        let n = s.len();
        let mut j: usize = 0;
        let mut matched = true;
        while j < pat.len()
            invariant
                n == s@.len(),
                i + pat@.len() <= s@.len(),
                j <= pat@.len(),
                matched == (forall|k: int| 0 <= k < j ==> s@[i + k] == pat@[k]),
            decreases pat@.len() - j,
        {
            if s[i + j] != pat[j] {
                matched = false;
            }
            j += 1;
        }
        proof {
            if matched {
                assert(s@.subrange(i as int, i + pat@.len()) =~= pat@);
            } else {
                let k = choose|k: int| 0 <= k < pat@.len() && s@[i + k] != pat@[k];
                assert(s@.subrange(i as int, i + pat@.len())[k] != pat@[k]);
            }
        }
        if matched {
            return Some(i);
        }
        i += 1;
    }
    None
}

/// Extract the field name from a "missing field `x`" message.
pub fn extract_missing_field(message: &str) -> (r: Option<String>)
    ensures
        match r {
            Some(f) => missing_field_of(message@) == Some(f@),
            None => missing_field_of(message@) is None,
        },
{
    let msg = crate::text::chars_of(message);
    let marker = crate::text::chars_of("missing field");
    let idx = match find_chars(&msg, &marker, 0) {
        Some(i) => i,
        None => return None,
    };
    let mut tick: Vec<char> = Vec::new();
    tick.push('`');
    let msg_len = msg.len();
    assert(idx + marker@.len() <= msg_len);
    let skip = idx + marker.len();
    let mut rest: Vec<char> = Vec::new();
    let mut i = skip;
    while i < msg.len()
        invariant
            skip <= i <= msg@.len(),
            skip <= msg@.len(),
            rest@ == msg@.subrange(skip as int, i as int),
        decreases msg@.len() - i,
    {
        rest.push(msg[i]);
        assert(msg@.subrange(skip as int, i + 1) == msg@.subrange(skip as int, i as int).push(msg@[i as int]));
        i += 1;
    }
    proof {
        assert(rest@ =~= msg@.skip(skip as int));
        assert(tick@ =~= seq!['`']);
    }
    let open = match find_chars(&rest, &tick, 0) {
        Some(o) => o,
        None => return None,
    };
    let start = open + 1;
    let mut tail: Vec<char> = Vec::new();
    let mut j = start;
    while j < rest.len()
        invariant
            start <= j <= rest@.len(),
            start <= rest@.len(),
            tail@ == rest@.subrange(start as int, j as int),
        decreases rest@.len() - j,
    {
        tail.push(rest[j]);
        assert(rest@.subrange(start as int, j + 1) == rest@.subrange(start as int, j as int).push(rest@[j as int]));
        j += 1;
    }
    proof {
        assert(tail@ =~= rest@.skip(start as int));
    }
    let close = match find_chars(&tail, &tick, 0) {
        Some(c) => c,
        None => return None,
    };
    Some(crate::text::string_of_range(rest.as_slice(), start, start + close))
}

/// The number of newline bytes in `b`.
pub open spec fn count_newlines(b: Seq<u8>) -> nat
    decreases b.len(),
{
    if b.len() == 0 {
        0
    } else {
        count_newlines(b.drop_last()) + if b.last() == 10u8 {
            1nat
        } else {
            0nat
        }
    }
}

/// The 1-based line on which byte `offset` of `input` falls (offsets past
/// the end count as the end): one more than the newline bytes before it.
pub fn line_from_byte_offset(input: &str, offset: usize) -> (r: usize)
    requires
        input.spec_bytes().len() < usize::MAX,
    ensures
        r == count_newlines(input.spec_bytes().take(
            if offset < input.spec_bytes().len() { offset as int } else { input.spec_bytes().len() as int },
        )) + 1,
{
    let bytes = input.as_bytes();
    let clamped = if offset < bytes.len() {
        offset
    } else {
        bytes.len()
    };
    let mut count: usize = 0;
    let mut i: usize = 0;
    while i < clamped
        invariant
            i <= clamped <= bytes@.len(),
            bytes@ == input.spec_bytes(),
            bytes@.len() < usize::MAX,
            count == count_newlines(bytes@.take(i as int)),
            count <= i,
        decreases clamped - i,
    {
        proof {
            assert(bytes@.take(i as int + 1).drop_last() =~= bytes@.take(i as int));
        }
        if bytes[i] == 10u8 {
            count += 1;
        }
        i += 1;
    }
    count + 1
}

/// The parse error a decoding failure stands for: a failure naming a
/// missing field (for JSON, only when the text was well-formed) is that
/// missing field; anything else is a syntax error at the reported line (for
/// TOML, the line of the reported offset, or 0 without one).
pub open spec fn classify(input: Seq<u8>, e: DecodeError) -> ParseErrorView {
    match e {
        DecodeError::Json { message, data, line } => if data && missing_field_of(message@) is Some {
            ParseErrorView::Missing(missing_field_of(message@)->0)
        } else {
            ParseErrorView::Syntax(line, message@)
        },
        DecodeError::Toml { message, offset } => if missing_field_of(message@) is Some {
            ParseErrorView::Missing(missing_field_of(message@)->0)
        } else {
            ParseErrorView::Syntax(
                match offset {
                    Some(o) => (count_newlines(input.take(if o < input.len() { o as int } else { input.len() as int }))
                        + 1) as usize,
                    None => 0,
                },
                message@,
            )
        },
    }
}

/// Parses configuration files into [`InputMethodConfig`].
pub struct ConfigParser;

impl ConfigParser {
    /// Turn a decoding failure into a parse error (see [`classify`]).
    pub fn classify_error(input: &str, e: DecodeError) -> (r: ParseError)
        requires
            input.spec_bytes().len() < usize::MAX,
        ensures
            parse_error_view(r) == classify(input.spec_bytes(), e),
    {
        match e {
            DecodeError::Json { message, data, line } => {
                if data {
                    if let Some(field) = extract_missing_field(message.as_str()) {
                        return ParseError::MissingField { field };
                    }
                }
                ParseError::SyntaxError { line, message }
            },
            DecodeError::Toml { message, offset } => {
                if let Some(field) = extract_missing_field(message.as_str()) {
                    return ParseError::MissingField { field };
                }
                let line = match offset {
                    Some(o) => line_from_byte_offset(input, o),
                    None => 0,
                };
                ParseError::SyntaxError { line, message }
            },
        }
    }

    /// Parse `input` in the given format with `decode`, the format's
    /// decoder. Input over [`MAX_CONFIG_FILE_SIZE`] bytes is rejected
    /// without being decoded; otherwise a decoded configuration is returned
    /// as is, and a decoding failure is classified (see [`classify`]).
    pub fn parse<F>(input: &str, format: ConfigFormat, decode: F) -> (r: Result<InputMethodConfig, ParseError>)
        where
            F: FnOnce(&str, ConfigFormat) -> Result<InputMethodConfig, DecodeError>,
        requires
            input.spec_bytes().len() <= usize::MAX,
            decode.requires((input, format)),
        ensures
            input.spec_bytes().len() > MAX_CONFIG_FILE_SIZE ==> (r matches Err(e) && parse_error_view(e)
                == ParseErrorView::TooLarge(input.spec_bytes().len() as usize, MAX_CONFIG_FILE_SIZE)),
            input.spec_bytes().len() <= MAX_CONFIG_FILE_SIZE ==> exists|d: Result<InputMethodConfig, DecodeError>|
                decode.ensures((input, format), d) && match d {
                    Ok(c) => r == Ok::<InputMethodConfig, ParseError>(c),
                    Err(de) => (r matches Err(e) && parse_error_view(e) == classify(input.spec_bytes(), de)),
                },
            input.spec_bytes().len() <= MAX_CONFIG_FILE_SIZE ==> !(r matches Err(e) && parse_error_view(e) is TooLarge),
    {
        if input.len() > MAX_CONFIG_FILE_SIZE {
            return Err(ParseError::FileTooLarge { size: input.len(), max: MAX_CONFIG_FILE_SIZE });
        }
        let decoded = decode(input, format);
        let ghost d = decoded;
        match decoded {
            Ok(config) => Ok(config),
            Err(e) => Err(Self::classify_error(input, e)),
        }
    }

    /// Validate the configuration's rules: `Ok` when no key (input and
    /// context) maps to several outputs and no chain of rules leads back to
    /// where it started; otherwise every conflicting mapping (see
    /// [`conflicts_of`]) followed by the cycles the depth-first search finds
    /// (see [`rule_cycles`] and [`cycles_reported`]).
    pub fn validate_rules(config: &InputMethodConfig) -> (r: Result<(), Vec<ValidationError>>)
        ensures
            r is Ok <==> conflicts_of(rule_views(config.rules@)).len() == 0 && !has_cycle(rule_views(config.rules@)),
            r is Ok <==> mappings_consistent(rule_views(config.rules@)) && !has_cycle(rule_views(config.rules@)),
            r matches Err(es) ==> ({
                let ev = error_views(es@);
                let n = conflicts_of(rule_views(config.rules@)).len();
                &&& ev.len() >= n
                &&& ev.take(n as int) == conflicts_of(rule_views(config.rules@))
                &&& cycles_reported(rule_views(config.rules@), ev.skip(n as int))
                &&& ev.skip(n as int) == cycle_errors(rule_cycles(rule_views(config.rules@)))
                &&& (ev.len() == n) == !has_cycle(rule_views(config.rules@))
            }),
    {
        proof {
            lemma_no_conflicts_iff_consistent(rule_views(config.rules@));
        }
        let mut errors = detect_conflicts(&config.rules);
        let ghost nconf = errors@.len();
        let ghost conf = errors@;
        let mut cycles = detect_cycles(&config.rules);
        let ghost cyc = cycles@;
        errors.append(&mut cycles);
        proof {
            assert(errors@ =~= conf + cyc);
            assert(error_views(errors@).take(nconf as int) =~= error_views(conf));
            assert(error_views(errors@).skip(nconf as int) =~= error_views(cyc));
        }
        if errors.len() == 0 {
            Ok(())
        } else {
            Err(errors)
        }
    }
}

} // verus!
