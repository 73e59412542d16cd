//! Rule compilation and scanning over YARA-X.
//!
//! Compiling the rule source is the only step that fails: an invalid source
//! gives a [`YaraError`] carrying the compiler's diagnostic. Scanning is total:
//! a scanner error is "no matches", and data longer than [`MAX_DATA_LEN`] is
//! cut to that length before it reaches the scanner.

use vstd::prelude::*;
use crate::text::{render_matched, render_spec};

verus! {

/// A processing error, carrying the message shown to the user. It only ever
/// comes from an invalid rule source.
#[derive(Debug, Clone, PartialEq, Eq)]
pub struct YaraError(pub String);

/// Upper bound on the data scanned in a single call (64 MiB).
pub const MAX_DATA_LEN: usize = 64 * 1024 * 1024;

/// One matching rule: its identifier, namespace, and tags.
#[derive(Debug, Clone, PartialEq, Eq)]
pub struct RuleMatch {
    pub rule: String,
    pub namespace: String,
    pub tags: Vec<String>,
}

/// One pattern (string) hit within a matching rule.
#[derive(Debug, Clone, PartialEq, Eq)]
pub struct StringMatch {
    /// The rule this hit belongs to.
    pub rule: String,
    /// The pattern identifier, e.g. `$a`.
    pub identifier: String,
    /// Byte offset of the match within the scanned data.
    pub offset: u64,
    /// Matched bytes, rendered as UTF-8 if printable, else a hex string.
    pub matched: String,
}

/// One match of a pattern, as the scanner reports it.
pub struct PatternHit {
    /// Where the match starts in the scanned data.
    pub offset: usize,
    /// The matched bytes.
    pub data: Vec<u8>,
}

/// One pattern of a matching rule, with its matches.
pub struct ScannedPattern {
    pub identifier: String,
    pub hits: Vec<PatternHit>,
}

/// One matching rule, as the scanner reports it.
pub struct ScannedRule {
    pub identifier: String,
    pub namespace: String,
    pub tags: Vec<String>,
    pub patterns: Vec<ScannedPattern>,
}

/// The texts of a sequence of strings.
pub open spec fn strings_view(v: Seq<String>) -> Seq<Seq<char>> {
    v.map_values(|s: String| s@)
}

pub struct PatternHitView {
    pub offset: usize,
    pub data: Seq<u8>,
}

pub struct ScannedPatternView {
    pub identifier: Seq<char>,
    pub hits: Seq<PatternHitView>,
}

pub struct ScannedRuleView {
    pub identifier: Seq<char>,
    pub namespace: Seq<char>,
    pub tags: Seq<Seq<char>>,
    pub patterns: Seq<ScannedPatternView>,
}

pub struct RuleMatchView {
    pub rule: Seq<char>,
    pub namespace: Seq<char>,
    pub tags: Seq<Seq<char>>,
}

pub struct StringMatchView {
    pub rule: Seq<char>,
    pub identifier: Seq<char>,
    pub offset: u64,
    pub matched: Seq<char>,
}

impl View for PatternHit {
    type V = PatternHitView;

    open spec fn view(&self) -> PatternHitView {
        PatternHitView { offset: self.offset, data: self.data@ }
    }
}

impl View for ScannedPattern {
    type V = ScannedPatternView;

    open spec fn view(&self) -> ScannedPatternView {
        ScannedPatternView {
            identifier: self.identifier@,
            hits: self.hits@.map_values(|h: PatternHit| h@),
        }
    }
}

impl View for ScannedRule {
    type V = ScannedRuleView;

    open spec fn view(&self) -> ScannedRuleView {
        ScannedRuleView {
            identifier: self.identifier@,
            namespace: self.namespace@,
            tags: strings_view(self.tags@),
            patterns: self.patterns@.map_values(|p: ScannedPattern| p@),
        }
    }
}

impl View for RuleMatch {
    type V = RuleMatchView;

    open spec fn view(&self) -> RuleMatchView {
        RuleMatchView { rule: self.rule@, namespace: self.namespace@, tags: strings_view(self.tags@) }
    }
}

impl View for StringMatch {
    type V = StringMatchView;

    open spec fn view(&self) -> StringMatchView {
        StringMatchView {
            rule: self.rule@,
            identifier: self.identifier@,
            offset: self.offset,
            matched: self.matched@,
        }
    }
}

/// The views of the rules a scan reported.
pub open spec fn scanned_view(v: Seq<ScannedRule>) -> Seq<ScannedRuleView> {
    v.map_values(|r: ScannedRule| r@)
}

/// The views of a sequence of rule matches.
pub open spec fn rule_matches_view(v: Seq<RuleMatch>) -> Seq<RuleMatchView> {
    v.map_values(|m: RuleMatch| m@)
}

/// The views of a sequence of string matches.
pub open spec fn string_matches_view(v: Seq<StringMatch>) -> Seq<StringMatchView> {
    v.map_values(|m: StringMatch| m@)
}

/// The rule match reported for a matching rule.
pub open spec fn rule_match_of(r: ScannedRuleView) -> RuleMatchView {
    RuleMatchView { rule: r.identifier, namespace: r.namespace, tags: r.tags }
}

/// The rule matches reported for a scan.
pub open spec fn rule_matches_of_scan(s: Seq<ScannedRuleView>) -> Seq<RuleMatchView> {
    s.map_values(|r: ScannedRuleView| rule_match_of(r))
}

/// The string match reported for one hit of pattern `pattern` of rule `rule`.
pub open spec fn hit_match(rule: Seq<char>, pattern: Seq<char>, h: PatternHitView) -> StringMatchView {
    StringMatchView {
        rule,
        identifier: pattern,
        offset: h.offset as u64,
        matched: render_spec(h.data),
    }
}

/// The string matches of one pattern of rule `rule`, one per hit.
pub open spec fn pattern_matches(rule: Seq<char>, p: ScannedPatternView) -> Seq<StringMatchView> {
    p.hits.map_values(|h: PatternHitView| hit_match(rule, p.identifier, h))
}

/// The string matches of one rule: those of its patterns, in order.
pub open spec fn rule_string_matches(r: ScannedRuleView) -> Seq<StringMatchView> {
    r.patterns.map_values(|p: ScannedPatternView| pattern_matches(r.identifier, p)).flatten()
}

/// The string matches of a scan: those of its rules, in order.
pub open spec fn string_matches_of_scan(s: Seq<ScannedRuleView>) -> Seq<StringMatchView> {
    s.map_values(|r: ScannedRuleView| rule_string_matches(r)).flatten()
}

/// The length of data after [`bounded`].
pub open spec fn bounded_len(n: nat) -> nat {
    if n > MAX_DATA_LEN {
        MAX_DATA_LEN as nat
    } else {
        n
    }
}

/// A compiled YARA-X ruleset.
#[verifier::external_type_specification]
#[verifier::external_body]
pub struct ExRules(yara_x::Rules);

/// The keyword that opens an `include` statement.
pub open spec fn inclusion_keyword() -> Seq<char> {
    seq!['i', 'n', 'c', 'l', 'u', 'd', 'e']
}

/// Whether `source` holds the keyword of an `include` statement anywhere (in
/// a comment or a string too). Only such a source can make the compiler read
/// a file, so for any other source the outcome of compiling it depends on the
/// source alone.
pub open spec fn may_read_files(source: Seq<char>) -> bool {
    exists|i: int|
        0 <= i && i + 7 <= source.len() && #[trigger] source.subrange(i, i + 7)
            == inclusion_keyword()
}

/// Whether a fresh YARA-X compiler accepts this rule source (meaningful for a
/// source that holds no `include` statement, see [`may_read_files`]).
pub uninterp spec fn yara_source_compiles(source: Seq<char>) -> bool;

/// The compiler's diagnostic for a rule source it rejects: the `Display` of
/// the `CompileError` that a fresh compiler returns for it (meaningful for a
/// source that holds no `include` statement).
pub uninterp spec fn yara_compile_diagnostic(source: Seq<char>) -> Seq<char>;

/// The text that starts every compile error message.
pub open spec fn compile_prefix() -> Seq<char> {
    "invalid YARA rule: "@
}

/// The message of the error for a rule source that does not compile.
pub open spec fn compile_message(source: Seq<char>) -> Seq<char> {
    compile_prefix() + yara_compile_diagnostic(source)
}

/// `ok` is a possible verdict of compiling `source`: the named one for a
/// source without `include` statements; either for a source with them, whose
/// outcome depends on the files they name.
pub open spec fn compile_verdict(source: Seq<char>, ok: bool) -> bool {
    !may_read_files(source) ==> ok == yara_source_compiles(source)
}

/// `msg` is a possible error message for compiling `source`: it starts with
/// [`compile_prefix`], and for a source without `include` statements it is
/// [`compile_message`].
pub open spec fn compile_error_text(source: Seq<char>, msg: Seq<char>) -> bool {
    &&& compile_prefix().len() <= msg.len()
    &&& msg.take(compile_prefix().len() as int) == compile_prefix()
    &&& !may_read_files(source) ==> msg == compile_message(source)
}

/// Compiles `source` with a fresh `yara_x::Compiler` (`Compiler::new`,
/// `Compiler::add_source`, then `Compiler::build`), with the compiler's
/// default settings; a compile error is handed back as its `Display` text.
/// `include` statements are resolved against the file system, so for a source
/// that holds one nothing is claimed. For any other source the compiler reads
/// nothing from outside, and the result is `Ok` exactly when `add_source`
/// accepts the source, and an error's text is the diagnostic for that source.
#[verifier::external_body]
fn yara_compile(source: &str) -> (r: Result<yara_x::Rules, String>)
    ensures
        !may_read_files(source@) ==> (r is Ok <==> yara_source_compiles(source@)),
        !may_read_files(source@) ==> (r matches Err(text) ==> text@ == yara_compile_diagnostic(
            source@,
        )),
{
    let mut compiler = yara_x::Compiler::new();
    match compiler.add_source(source) {
        Ok(_) => Ok(compiler.build()),
        Err(e) => Err(e.to_string()),
    }
}

/// Whether `s` is consistent with scanning `data`: every match is a range of
/// `data` and holds exactly the bytes of `data` in that range, the matches of
/// each pattern come in strictly ascending order of offset (each offset once),
/// and no two patterns of a rule share an identifier, anonymous ones (`$`)
/// aside.
pub open spec fn scan_consistent(s: Seq<ScannedRuleView>, data: Seq<u8>) -> bool {
    &&& forall|i: int, j1: int, j2: int|
        0 <= i < s.len() && 0 <= j1 < j2 < s[i].patterns.len() && s[i].patterns[j1].identifier
            != "$"@ ==> #[trigger] s[i].patterns[j1].identifier
            != #[trigger] s[i].patterns[j2].identifier
    &&& forall|i: int, j: int, k: int|
        0 <= i < s.len() && 0 <= j < s[i].patterns.len() && 0 <= k < s[i].patterns[j].hits.len()
            ==> {
            let h = #[trigger] s[i].patterns[j].hits[k];
            &&& h.offset + h.data.len() <= data.len()
            &&& h.data == data.subrange(h.offset as int, h.offset + h.data.len())
        }
    &&& forall|i: int, j: int, k1: int, k2: int|
        0 <= i < s.len() && 0 <= j < s[i].patterns.len() && 0 <= k1 < k2
            < s[i].patterns[j].hits.len() ==> #[trigger] s[i].patterns[j].hits[k1].offset
            < #[trigger] s[i].patterns[j].hits[k2].offset
}

/// Scans `data` with a fresh `yara_x::Scanner` over `rules` (`Scanner::new`,
/// `Scanner::scan`) and reads out every matching rule: identifier, namespace,
/// tag identifiers, and for each pattern its match starts and matched bytes.
/// A scan error gives `None`. Claims what the engine fixes of every outcome:
/// a match is a range of `data`, its bytes are the bytes of `data` there, a
/// pattern's matches are kept sorted by start offset, one per offset, and the
/// compiler refuses a rule that declares a pattern identifier twice
/// (anonymous `$` patterns aside). Which rules match is left unsaid, since a
/// rule may consult the clock (the `time` module).
#[verifier::external_body]
fn yara_scan(rules: &yara_x::Rules, data: &[u8]) -> (r: Option<Vec<ScannedRule>>)
    ensures
        r matches Some(v) ==> scan_consistent(scanned_view(v@), data@),
{
    let mut scanner = yara_x::Scanner::new(rules);
    let results = scanner.scan(data).ok()?;
    Some(results.matching_rules().map(|r| ScannedRule {
        identifier: r.identifier().to_string(),
        namespace: r.namespace().to_string(),
        tags: r.tags().map(|t| t.identifier().to_string()).collect(),
        patterns: r.patterns().map(|p| ScannedPattern {
            identifier: p.identifier().to_string(),
            hits: p.matches().map(|m| PatternHit { offset: m.range().start, data: m.data().to_vec() }).collect(),
        }).collect(),
    }).collect())
}

/// `rules` is a ruleset compiling `source` gave: the `Ok` result of a call of
/// the compiling wrapper on a string whose text is `source`. This ties a
/// ruleset to the source it came from; nothing else is known of it.
pub closed spec fn compiled_from(rules: yara_x::Rules, source: Seq<char>) -> bool {
    exists|text: &str|
        text@ == source && #[trigger] call_ensures(
            yara_compile,
            (text,),
            Ok::<yara_x::Rules, String>(rules),
        )
}

/// `o` is an outcome the scanner may give for `rules` over `data`: the result
/// of a call of the scanning wrapper on these rules and a slice holding
/// `data`. Such an outcome is consistent with `data`
/// ([`lemma_scanner_outcome_consistent`]); which rules it reports is the
/// engine's to say.
pub closed spec fn scanner_may_return(
    rules: &yara_x::Rules,
    data: Seq<u8>,
    o: Option<Vec<ScannedRule>>,
) -> bool {
    exists|d: &[u8]| d@ == data && #[trigger] call_ensures(yara_scan, (rules, d), o)
}

/// An outcome the scanner may give is consistent with the data it scanned.
pub proof fn lemma_scanner_outcome_consistent(
    rules: &yara_x::Rules,
    data: Seq<u8>,
    o: Option<Vec<ScannedRule>>,
)
    requires
        scanner_may_return(rules, data, o),
    ensures
        o matches Some(v) ==> scan_consistent(scanned_view(v@), data),
{
    let d = choose|d: &[u8]| d@ == data && #[trigger] call_ensures(yara_scan, (rules, d), o);
    assert(call_ensures(yara_scan, (rules, d), o));
}

/// Compiles a YARA rule source into a reusable ruleset. The only entry point
/// that fails: an invalid source gives a [`YaraError`] whose message is
/// `invalid YARA rule: ` followed by the compiler's diagnostic. `include`
/// statements are resolved against the file system, as the compiler does by
/// default.
pub fn compile_rules(source: &str) -> (r: Result<yara_x::Rules, YaraError>)
    ensures
        compile_verdict(source@, r is Ok),
        r matches Err(e) ==> compile_error_text(source@, e.0@),
        r matches Ok(rules) ==> compiled_from(rules, source@),
{
    let c = yara_compile(source);
    proof {
        assert(call_ensures(yara_compile, (source,), c));
    }
    match c {
        Ok(rules) => Ok(rules),
        Err(detail) => {
            let mut msg = String::from_str("invalid YARA rule: ");
            msg.append(detail.as_str());
            proof {
                reveal_strlit("invalid YARA rule: ");
                assert(msg@.take(compile_prefix().len() as int) =~= compile_prefix());
            }
            Err(YaraError(msg))
        },
    }
}

/// Whether the rules compile: `true` exactly when [`compile_rules`] succeeds.
pub fn rules_compile(source: &str) -> (r: bool)
    ensures
        compile_verdict(source@, r),
{
    compile_rules(source).is_ok()
}

/// `data` cut to at most [`MAX_DATA_LEN`] bytes.
pub fn bounded(data: &[u8]) -> (r: &[u8])
    ensures
        r@ == data@.take(bounded_len(data@.len()) as int),
        r@.len() == bounded_len(data@.len()),
{
    if data.len() > MAX_DATA_LEN {
        &data[0..MAX_DATA_LEN]
    } else {
        proof {
            assert(data@.take(data@.len() as int) =~= data@);
        }
        data
    }
}

/// Copies a list of strings.
pub fn clone_strings(v: &Vec<String>) -> (r: Vec<String>)
    ensures
        strings_view(r@) == strings_view(v@),
{
    let mut out: Vec<String> = Vec::new();
    let mut i: usize = 0;
    while i < v.len()
        invariant
            i <= v@.len(),
            out@.len() == i,
            strings_view(out@) == strings_view(v@.take(i as int)),
        decreases v.len() - i,
    {
        let ghost prev = out@;
        let c = v[i].clone();
        out.push(c);
        proof {
            assert forall|k: int| 0 <= k < i + 1 implies #[trigger] strings_view(out@)[k]
                == strings_view(v@.take(i + 1))[k] by {
                if k < i {
                    assert(strings_view(prev)[k] == strings_view(v@.take(i as int))[k]);
                }
            }
            assert(strings_view(out@) =~= strings_view(v@.take(i + 1)));
        }
        i += 1;
    }
    proof {
        assert(v@.take(v@.len() as int) =~= v@);
    }
    out
}

/// The rule matches of a scan's matching rules, in the scanner's order.
pub fn rule_matches_of(scan: &Vec<ScannedRule>) -> (r: Vec<RuleMatch>)
    ensures
        rule_matches_view(r@) == rule_matches_of_scan(scanned_view(scan@)),
{
    let mut out: Vec<RuleMatch> = Vec::new();
    let mut i: usize = 0;
    while i < scan.len()
        invariant
            i <= scan@.len(),
            out@.len() == i,
            rule_matches_view(out@) == rule_matches_of_scan(scanned_view(scan@.take(i as int))),
        decreases scan.len() - i,
    {
        let r = &scan[i];
        let m = RuleMatch {
            rule: r.identifier.clone(),
            namespace: r.namespace.clone(),
            tags: clone_strings(&r.tags),
        };
        let ghost prev = out@;
        out.push(m);
        proof {
            assert forall|k: int| 0 <= k < i + 1 implies #[trigger] rule_matches_view(out@)[k]
                == rule_matches_of_scan(scanned_view(scan@.take(i + 1)))[k] by {
                if k < i {
                    assert(rule_matches_view(prev)[k] == rule_matches_of_scan(
                        scanned_view(scan@.take(i as int)),
                    )[k]);
                }
            }
            assert(rule_matches_view(out@) =~= rule_matches_of_scan(
                scanned_view(scan@.take(i + 1)),
            ));
        }
        i += 1;
    }
    proof {
        assert(scan@.take(scan@.len() as int) =~= scan@);
    }
    out
}

/// Appends the string matches of pattern `p` of rule `rule`, one per hit.
fn push_pattern_matches(out: &mut Vec<StringMatch>, rule: &String, p: &ScannedPattern)
    ensures
        string_matches_view(final(out)@) == string_matches_view(old(out)@) + pattern_matches(
            rule@,
            p@,
        ),
{
    let ghost before = string_matches_view(out@);
    let ghost all = pattern_matches(rule@, p@);
    let mut k: usize = 0;
    proof {
        assert(string_matches_view(out@) =~= before + all.take(0));
    }
    while k < p.hits.len()
        invariant
            k <= p.hits@.len(),
            all == pattern_matches(rule@, p@),
            all.len() == p.hits@.len(),
            string_matches_view(out@) == before + all.take(k as int),
        decreases p.hits.len() - k,
    {
        let h = &p.hits[k];
        let m = StringMatch {
            rule: rule.clone(),
            identifier: p.identifier.clone(),
            offset: h.offset as u64,
            matched: render_matched(h.data.as_slice()),
        };
        let ghost prev = out@;
        out.push(m);
        proof {
            assert(all[k as int] == hit_match(rule@, p.identifier@, p.hits@[k as int]@));
            assert(string_matches_view(out@) =~= string_matches_view(prev).push(m@));
            assert(all.take(k + 1) =~= all.take(k as int).push(all[k as int]));
            assert(string_matches_view(out@) =~= before + all.take(k + 1));
        }
        k += 1;
    }
    proof {
        assert(all.take(all.len() as int) =~= all);
    }
}

/// Appends the string matches of one matching rule, pattern by pattern.
fn push_rule_matches(out: &mut Vec<StringMatch>, r: &ScannedRule)
    ensures
        string_matches_view(final(out)@) == string_matches_view(old(out)@) + rule_string_matches(
            r@,
        ),
{
    let ghost before = string_matches_view(out@);
    let ghost parts = r@.patterns.map_values(
        |p: ScannedPatternView| pattern_matches(r.identifier@, p),
    );
    let mut j: usize = 0;
    proof {
        assert(parts.take(0) =~= Seq::<Seq<StringMatchView>>::empty());
        assert(string_matches_view(out@) =~= before + parts.take(0).flatten());
    }
    while j < r.patterns.len()
        invariant
            j <= r.patterns@.len(),
            parts == r@.patterns.map_values(
                |p: ScannedPatternView| pattern_matches(r.identifier@, p),
            ),
            string_matches_view(out@) == before + parts.take(j as int).flatten(),
        decreases r.patterns.len() - j,
    {
        push_pattern_matches(out, &r.identifier, &r.patterns[j]);
        proof {
            assert(parts.take(j + 1) =~= parts.take(j as int).push(parts[j as int]));
            parts.take(j as int).lemma_flatten_push(parts[j as int]);
            assert(string_matches_view(out@) =~= before + parts.take(j + 1).flatten());
        }
        j += 1;
    }
    proof {
        assert(parts.take(parts.len() as int) =~= parts);
    }
}

/// The string matches of a scan: one per hit, rule by rule and pattern by
/// pattern in the scanner's order, with the matched bytes rendered by
/// [`render_matched`].
pub fn string_matches_of(scan: &Vec<ScannedRule>) -> (r: Vec<StringMatch>)
    ensures
        string_matches_view(r@) == string_matches_of_scan(scanned_view(scan@)),
{
    let mut out: Vec<StringMatch> = Vec::new();
    let ghost parts = scanned_view(scan@).map_values(
        |x: ScannedRuleView| rule_string_matches(x),
    );
    let mut i: usize = 0;
    proof {
        assert(parts.take(0) =~= Seq::<Seq<StringMatchView>>::empty());
        assert(string_matches_view(out@) =~= parts.take(0).flatten());
    }
    while i < scan.len()
        invariant
            i <= scan@.len(),
            parts == scanned_view(scan@).map_values(|x: ScannedRuleView| rule_string_matches(x)),
            string_matches_view(out@) == parts.take(i as int).flatten(),
        decreases scan.len() - i,
    {
        push_rule_matches(&mut out, &scan[i]);
        proof {
            assert(parts.take(i + 1) =~= parts.take(i as int).push(parts[i as int]));
            parts.take(i as int).lemma_flatten_push(parts[i as int]);
        }
        i += 1;
    }
    proof {
        assert(parts.take(parts.len() as int) =~= parts);
    }
    out
}

/// The rule matches a scan outcome gives: none when the scan failed.
pub open spec fn outcome_rule_matches(o: Option<Vec<ScannedRule>>) -> Seq<RuleMatchView> {
    match o {
        Some(v) => rule_matches_of_scan(scanned_view(v@)),
        None => Seq::empty(),
    }
}

/// The pattern hits a scan outcome gives: none when the scan failed.
pub open spec fn outcome_string_matches(o: Option<Vec<ScannedRule>>) -> Seq<StringMatchView> {
    match o {
        Some(v) => string_matches_of_scan(scanned_view(v@)),
        None => Seq::empty(),
    }
}

/// The rule matches of a scan outcome: those of the matching rules, in the
/// scanner's order, or none when the scan failed (scanning is total).
pub fn rule_matches_of_outcome(outcome: &Option<Vec<ScannedRule>>) -> (r: Vec<RuleMatch>)
    ensures
        rule_matches_view(r@) == outcome_rule_matches(*outcome),
{
    match outcome {
        Some(found) => rule_matches_of(found),
        None => {
            let r: Vec<RuleMatch> = Vec::new();
            assert(rule_matches_view(r@) =~= Seq::<RuleMatchView>::empty());
            r
        },
    }
}

/// The pattern hits of a scan outcome, or none when the scan failed
/// (scanning is total).
pub fn string_matches_of_outcome(outcome: &Option<Vec<ScannedRule>>) -> (r: Vec<StringMatch>)
    ensures
        string_matches_view(r@) == outcome_string_matches(*outcome),
{
    match outcome {
        Some(found) => string_matches_of(found),
        None => {
            let r: Vec<StringMatch> = Vec::new();
            assert(string_matches_view(r@) =~= Seq::<StringMatchView>::empty());
            r
        },
    }
}

/// The first [`MAX_DATA_LEN`] bytes of `data`: what is scanned.
pub open spec fn bounded_data(data: Seq<u8>) -> Seq<u8> {
    data.take(bounded_len(data.len()) as int)
}

/// Bytes past [`MAX_DATA_LEN`] never reach the scanner: cutting twice is
/// cutting once, and data that has at least [`MAX_DATA_LEN`] bytes is scanned
/// the same whatever follows them.
pub proof fn lemma_bounded_data_ignores_the_tail(data: Seq<u8>, tail: Seq<u8>)
    ensures
        bounded_data(bounded_data(data)) == bounded_data(data),
        data.len() >= MAX_DATA_LEN ==> bounded_data(data + tail) == bounded_data(data),
{
    assert(bounded_data(bounded_data(data)) =~= bounded_data(data));
    if data.len() >= MAX_DATA_LEN {
        assert(bounded_data(data + tail) =~= bounded_data(data));
    }
}

/// `r` is what some scan outcome consistent with `data` reports as pattern
/// hits.
pub open spec fn possible_string_matches(r: Seq<StringMatchView>, data: Seq<u8>) -> bool {
    exists|s: Seq<ScannedRuleView>|
        scan_consistent(s, data) && #[trigger] string_matches_of_scan(s) == r
}

/// The hit `m` shows the bytes of `data` at its offset: its text is the
/// rendering of `data[offset..offset + n]` for some `n` that stays in `data`.
pub open spec fn renders_data_at(m: StringMatchView, data: Seq<u8>) -> bool {
    exists|n: int|
        0 <= n && m.offset + n <= data.len() && #[trigger] render_spec(
            data.subrange(m.offset as int, m.offset + n),
        ) == m.matched
}

proof fn lemma_flatten_all<A>(ss: Seq<Seq<A>>, p: spec_fn(A) -> bool)
    requires
        forall|i: int, j: int| 0 <= i < ss.len() && 0 <= j < ss[i].len() ==> p(#[trigger] ss[i][j]),
    ensures
        forall|k: int| 0 <= k < ss.flatten().len() ==> p(#[trigger] ss.flatten()[k]),
    decreases ss.len(),
{
    if ss.len() > 0 {
        let rest = ss.drop_first();
        assert forall|i: int, j: int| 0 <= i < rest.len() && 0 <= j < rest[i].len() implies p(
            #[trigger] rest[i][j],
        ) by {
            assert(rest[i] == ss[i + 1]);
        }
        lemma_flatten_all(rest, p);
        let f = ss.flatten();
        assert(f == ss.first() + rest.flatten());
        assert forall|k: int| 0 <= k < f.len() implies p(#[trigger] f[k]) by {
            if k < ss.first().len() {
                assert(f[k] == ss[0][k]);
            } else {
                assert(f[k] == rest.flatten()[k - ss.first().len()]);
            }
        }
    }
}

/// Every pattern hit that a scan consistent with `data` reports shows the
/// bytes of `data` at its offset (and so starts within `data`).
pub proof fn lemma_string_matches_render(s: Seq<ScannedRuleView>, data: Seq<u8>)
    requires
        scan_consistent(s, data),
    ensures
        forall|k: int|
            0 <= k < string_matches_of_scan(s).len() ==> renders_data_at(
                #[trigger] string_matches_of_scan(s)[k],
                data,
            ),
{
    let p = |m: StringMatchView| renders_data_at(m, data);
    let outer = s.map_values(|r: ScannedRuleView| rule_string_matches(r));
    assert forall|i: int, j: int| 0 <= i < outer.len() && 0 <= j < outer[i].len() implies p(
        #[trigger] outer[i][j],
    ) by {
        let r = s[i];
        let inner = r.patterns.map_values(|q: ScannedPatternView| pattern_matches(r.identifier, q));
        assert forall|a: int, b: int| 0 <= a < inner.len() && 0 <= b < inner[a].len() implies p(
            #[trigger] inner[a][b],
        ) by {
            let h = s[i].patterns[a].hits[b];
            let m = hit_match(r.identifier, r.patterns[a].identifier, h);
            assert(inner[a][b] == m);
            assert(h.data == data.subrange(h.offset as int, h.offset + h.data.len()));
            assert(render_spec(data.subrange(m.offset as int, m.offset + h.data.len())) == m.matched);
        }
        lemma_flatten_all(inner, p);
        assert(outer[i] == inner.flatten());
    }
    lemma_flatten_all(outer, p);
}

/// `r` is what some scan outcome consistent with `data` reports as matching
/// rules. A rule list carries no pattern hits, so this fixes no more of it
/// than the form of the outcome it comes from: which rules match is the
/// engine's to say.
pub open spec fn possible_rule_matches(r: Seq<RuleMatchView>, data: Seq<u8>) -> bool {
    exists|s: Seq<ScannedRuleView>|
        scan_consistent(s, data) && #[trigger] rule_matches_of_scan(s) == r
}

/// The matches of each pattern in `ps` come in strictly ascending order of
/// offset.
pub open spec fn hits_ascend(ps: Seq<ScannedPatternView>) -> bool {
    forall|j: int, k1: int, k2: int|
        0 <= j < ps.len() && 0 <= k1 < k2 < ps[j].hits.len() ==> #[trigger] ps[j].hits[k1].offset
            < #[trigger] ps[j].hits[k2].offset
}

/// No two patterns in `ps` share an identifier, anonymous ones (`$`) aside.
pub open spec fn named_patterns_distinct(ps: Seq<ScannedPatternView>) -> bool {
    forall|j1: int, j2: int|
        0 <= j1 < j2 < ps.len() && ps[j1].identifier != "$"@ ==> #[trigger] ps[j1].identifier
            != #[trigger] ps[j2].identifier
}

/// The string matches of the patterns `ps` of rule `rule`, pattern by pattern.
pub open spec fn patterns_matches(rule: Seq<char>, ps: Seq<ScannedPatternView>) -> Seq<StringMatchView> {
    ps.map_values(|p: ScannedPatternView| pattern_matches(rule, p)).flatten()
}

proof fn lemma_patterns_matches_identifiers(rule: Seq<char>, ps: Seq<ScannedPatternView>, id: Seq<char>)
    requires
        forall|j: int| 0 <= j < ps.len() ==> #[trigger] ps[j].identifier != id,
    ensures
        forall|k: int|
            0 <= k < patterns_matches(rule, ps).len() ==> (#[trigger] patterns_matches(rule, ps)[k]).identifier
                != id,
{
    let outer = ps.map_values(|p: ScannedPatternView| pattern_matches(rule, p));
    let q = |m: StringMatchView| m.identifier != id;
    assert forall|a: int, b: int| 0 <= a < outer.len() && 0 <= b < outer[a].len() implies q(
        #[trigger] outer[a][b],
    ) by {
        assert(outer[a][b] == hit_match(rule, ps[a].identifier, ps[a].hits[b]));
    }
    lemma_flatten_all(outer, q);
}

proof fn lemma_patterns_matches_rule(rule: Seq<char>, ps: Seq<ScannedPatternView>)
    ensures
        forall|k: int|
            0 <= k < patterns_matches(rule, ps).len() ==> (#[trigger] patterns_matches(rule, ps)[k]).rule
                == rule,
{
    let outer = ps.map_values(|p: ScannedPatternView| pattern_matches(rule, p));
    let q = |m: StringMatchView| m.rule == rule;
    assert forall|a: int, b: int| 0 <= a < outer.len() && 0 <= b < outer[a].len() implies q(
        #[trigger] outer[a][b],
    ) by {
        assert(outer[a][b] == hit_match(rule, ps[a].identifier, ps[a].hits[b]));
    }
    lemma_flatten_all(outer, q);
}

proof fn lemma_patterns_matches_ascend(rule: Seq<char>, ps: Seq<ScannedPatternView>, i: int, j: int)
    requires
        hits_ascend(ps),
        named_patterns_distinct(ps),
        0 <= i < j < patterns_matches(rule, ps).len(),
        patterns_matches(rule, ps)[i].identifier == patterns_matches(rule, ps)[j].identifier,
        patterns_matches(rule, ps)[i].identifier != "$"@,
    ensures
        patterns_matches(rule, ps)[i].offset < patterns_matches(rule, ps)[j].offset,
    decreases ps.len(),
{
    let f = |p: ScannedPatternView| pattern_matches(rule, p);
    let outer = ps.map_values(f);
    let rest = ps.drop_first();
    let first = pattern_matches(rule, ps[0]);
    assert(outer.drop_first() =~= rest.map_values(f));
    assert(patterns_matches(rule, ps) == first + patterns_matches(rule, rest));
    let all = patterns_matches(rule, ps);
    if j < first.len() {
        assert(all[i] == hit_match(rule, ps[0].identifier, ps[0].hits[i]));
        assert(all[j] == hit_match(rule, ps[0].identifier, ps[0].hits[j]));
        assert(ps[0].hits[i].offset < ps[0].hits[j].offset);
    } else if i >= first.len() {
        assert forall|a: int, k1: int, k2: int|
            0 <= a < rest.len() && 0 <= k1 < k2 < rest[a].hits.len() implies #[trigger] rest[a].hits[k1].offset
                < #[trigger] rest[a].hits[k2].offset by {
            assert(rest[a] == ps[a + 1]);
        }
        assert forall|a: int, b: int|
            0 <= a < b < rest.len() && rest[a].identifier != "$"@ implies #[trigger] rest[a].identifier
                != #[trigger] rest[b].identifier by {
            assert(rest[a] == ps[a + 1] && rest[b] == ps[b + 1]);
        }
        assert(all[i] == patterns_matches(rule, rest)[i - first.len()]);
        assert(all[j] == patterns_matches(rule, rest)[j - first.len()]);
        lemma_patterns_matches_ascend(rule, rest, i - first.len(), j - first.len());
    } else {
        assert(all[i] == hit_match(rule, ps[0].identifier, ps[0].hits[i]));
        assert forall|a: int| 0 <= a < rest.len() implies #[trigger] rest[a].identifier
            != ps[0].identifier by {
            assert(rest[a] == ps[a + 1]);
            assert(ps[0].identifier != ps[a + 1].identifier);
        }
        lemma_patterns_matches_identifiers(rule, rest, ps[0].identifier);
        assert(all[j] == patterns_matches(rule, rest)[j - first.len()]);
    }
}

/// In the pattern hits of a scan consistent with some data whose matching
/// rules have distinct identifiers, two hits of the same rule and the same
/// named pattern come in strictly ascending order of offset: each occurrence
/// is reported once, earliest first. (Anonymous `$` patterns share an
/// identifier, and two namespaces may hold rules of the same name, so the
/// law is stated without them.)
pub proof fn lemma_hits_of_a_pattern_ascend(s: Seq<ScannedRuleView>, data: Seq<u8>, i: int, j: int)
    requires
        scan_consistent(s, data),
        forall|a: int, b: int| 0 <= a < b < s.len() ==> #[trigger] s[a].identifier != #[trigger] s[b].identifier,
        0 <= i < j < string_matches_of_scan(s).len(),
        string_matches_of_scan(s)[i].rule == string_matches_of_scan(s)[j].rule,
        string_matches_of_scan(s)[i].identifier == string_matches_of_scan(s)[j].identifier,
        string_matches_of_scan(s)[i].identifier != "$"@,
    ensures
        string_matches_of_scan(s)[i].offset < string_matches_of_scan(s)[j].offset,
    decreases s.len(),
{
    let g = |r: ScannedRuleView| rule_string_matches(r);
    let outer = s.map_values(g);
    let rest = s.drop_first();
    let first = rule_string_matches(s[0]);
    assert(outer.drop_first() =~= rest.map_values(g));
    assert(string_matches_of_scan(s) == first + string_matches_of_scan(rest));
    assert(first == patterns_matches(s[0].identifier, s[0].patterns));
    let all = string_matches_of_scan(s);
    if j < first.len() {
        assert(hits_ascend(s[0].patterns));
        assert(named_patterns_distinct(s[0].patterns));
        lemma_patterns_matches_ascend(s[0].identifier, s[0].patterns, i, j);
    } else if i >= first.len() {
        assert(scan_consistent(rest, data)) by {
            assert forall|a: int| 0 <= a < rest.len() implies #[trigger] rest[a] == s[a + 1] by {}
        }
        assert forall|a: int, b: int| 0 <= a < b < rest.len() implies #[trigger] rest[a].identifier
            != #[trigger] rest[b].identifier by {
            assert(rest[a] == s[a + 1] && rest[b] == s[b + 1]);
        }
        lemma_hits_of_a_pattern_ascend(rest, data, i - first.len(), j - first.len());
    } else {
        lemma_patterns_matches_rule(s[0].identifier, s[0].patterns);
        assert(all[i].rule == s[0].identifier);
        let inner = rest.map_values(g);
        let q = |m: StringMatchView| m.rule != s[0].identifier;
        assert forall|a: int, b: int| 0 <= a < inner.len() && 0 <= b < inner[a].len() implies q(
            #[trigger] inner[a][b],
        ) by {
            assert(rest[a] == s[a + 1]);
            lemma_patterns_matches_rule(rest[a].identifier, rest[a].patterns);
            assert(inner[a] == patterns_matches(rest[a].identifier, rest[a].patterns));
        }
        lemma_flatten_all(inner, q);
        assert(all[j] == string_matches_of_scan(rest)[j - first.len()]);
    }
}

proof fn lemma_patterns_matches_contiguous(
    rule: Seq<char>,
    ps: Seq<ScannedPatternView>,
    i: int,
    k: int,
    j: int,
)
    requires
        named_patterns_distinct(ps),
        0 <= i < k < j < patterns_matches(rule, ps).len(),
        patterns_matches(rule, ps)[i].identifier == patterns_matches(rule, ps)[j].identifier,
        patterns_matches(rule, ps)[i].identifier != "$"@,
    ensures
        patterns_matches(rule, ps)[k].identifier == patterns_matches(rule, ps)[i].identifier,
    decreases ps.len(),
{
    let f = |p: ScannedPatternView| pattern_matches(rule, p);
    let outer = ps.map_values(f);
    let rest = ps.drop_first();
    let first = pattern_matches(rule, ps[0]);
    assert(outer.drop_first() =~= rest.map_values(f));
    assert(patterns_matches(rule, ps) == first + patterns_matches(rule, rest));
    let all = patterns_matches(rule, ps);
    if j < first.len() {
        assert(all[i] == hit_match(rule, ps[0].identifier, ps[0].hits[i]));
        assert(all[k] == hit_match(rule, ps[0].identifier, ps[0].hits[k]));
    } else if i >= first.len() {
        assert forall|a: int, b: int|
            0 <= a < b < rest.len() && rest[a].identifier != "$"@ implies #[trigger] rest[a].identifier
                != #[trigger] rest[b].identifier by {
            assert(rest[a] == ps[a + 1] && rest[b] == ps[b + 1]);
        }
        assert(all[i] == patterns_matches(rule, rest)[i - first.len()]);
        assert(all[k] == patterns_matches(rule, rest)[k - first.len()]);
        assert(all[j] == patterns_matches(rule, rest)[j - first.len()]);
        lemma_patterns_matches_contiguous(rule, rest, i - first.len(), k - first.len(), j - first.len());
    } else {
        assert(all[i] == hit_match(rule, ps[0].identifier, ps[0].hits[i]));
        assert forall|a: int| 0 <= a < rest.len() implies #[trigger] rest[a].identifier
            != ps[0].identifier by {
            assert(rest[a] == ps[a + 1]);
            assert(ps[0].identifier != ps[a + 1].identifier);
        }
        lemma_patterns_matches_identifiers(rule, rest, ps[0].identifier);
        assert(all[j] == patterns_matches(rule, rest)[j - first.len()]);
    }
}

/// In the pattern hits of a scan consistent with some data whose matching
/// rules have distinct identifiers, the hits of one rule stand together, and
/// within them so do the hits of one named pattern: whatever lies between two
/// hits of a rule is a hit of that rule, and whatever lies between two hits
/// of a named pattern is a hit of that pattern.
pub proof fn lemma_hits_contiguous(s: Seq<ScannedRuleView>, data: Seq<u8>, i: int, k: int, j: int)
    requires
        scan_consistent(s, data),
        forall|a: int, b: int| 0 <= a < b < s.len() ==> #[trigger] s[a].identifier != #[trigger] s[b].identifier,
        0 <= i < k < j < string_matches_of_scan(s).len(),
        string_matches_of_scan(s)[i].rule == string_matches_of_scan(s)[j].rule,
    ensures
        string_matches_of_scan(s)[k].rule == string_matches_of_scan(s)[i].rule,
        string_matches_of_scan(s)[i].identifier == string_matches_of_scan(s)[j].identifier
            && string_matches_of_scan(s)[i].identifier != "$"@ ==> string_matches_of_scan(s)[k].identifier
            == string_matches_of_scan(s)[i].identifier,
    decreases s.len(),
{
    let g = |r: ScannedRuleView| rule_string_matches(r);
    let outer = s.map_values(g);
    let rest = s.drop_first();
    let first = rule_string_matches(s[0]);
    assert(outer.drop_first() =~= rest.map_values(g));
    assert(string_matches_of_scan(s) == first + string_matches_of_scan(rest));
    assert(first == patterns_matches(s[0].identifier, s[0].patterns));
    let all = string_matches_of_scan(s);
    if j < first.len() {
        lemma_patterns_matches_rule(s[0].identifier, s[0].patterns);
        assert(all[i] == first[i] && all[k] == first[k] && all[j] == first[j]);
        assert(named_patterns_distinct(s[0].patterns));
        if all[i].identifier == all[j].identifier && all[i].identifier != "$"@ {
            lemma_patterns_matches_contiguous(s[0].identifier, s[0].patterns, i, k, j);
        }
    } else if i >= first.len() {
        assert(scan_consistent(rest, data)) by {
            assert forall|a: int| 0 <= a < rest.len() implies #[trigger] rest[a] == s[a + 1] by {}
        }
        assert forall|a: int, b: int| 0 <= a < b < rest.len() implies #[trigger] rest[a].identifier
            != #[trigger] rest[b].identifier by {
            assert(rest[a] == s[a + 1] && rest[b] == s[b + 1]);
        }
        lemma_hits_contiguous(rest, data, i - first.len(), k - first.len(), j - first.len());
    } else {
        lemma_patterns_matches_rule(s[0].identifier, s[0].patterns);
        assert(all[i].rule == s[0].identifier);
        let inner = rest.map_values(g);
        let q = |m: StringMatchView| m.rule != s[0].identifier;
        assert forall|a: int, b: int| 0 <= a < inner.len() && 0 <= b < inner[a].len() implies q(
            #[trigger] inner[a][b],
        ) by {
            assert(rest[a] == s[a + 1]);
            lemma_patterns_matches_rule(rest[a].identifier, rest[a].patterns);
            assert(inner[a] == patterns_matches(rest[a].identifier, rest[a].patterns));
        }
        lemma_flatten_all(inner, q);
        assert(all[j] == string_matches_of_scan(rest)[j - first.len()]);
    }
}

/// How many matches the patterns `ps` hold together.
pub open spec fn hit_count(ps: Seq<ScannedPatternView>) -> nat
    decreases ps.len(),
{
    if ps.len() == 0 {
        0
    } else {
        ps[0].hits.len() + hit_count(ps.drop_first())
    }
}

/// How many pattern matches the rules of a scan outcome hold together.
pub open spec fn scan_hit_count(s: Seq<ScannedRuleView>) -> nat
    decreases s.len(),
{
    if s.len() == 0 {
        0
    } else {
        hit_count(s[0].patterns) + scan_hit_count(s.drop_first())
    }
}

/// The string match that reports match `k` of pattern `j` of rule `i` of `s`,
/// written out field by field.
pub open spec fn reported_hit(s: Seq<ScannedRuleView>, i: int, j: int, k: int) -> StringMatchView {
    StringMatchView {
        rule: s[i].identifier,
        identifier: s[i].patterns[j].identifier,
        offset: s[i].patterns[j].hits[k].offset as u64,
        matched: render_spec(s[i].patterns[j].hits[k].data),
    }
}

proof fn lemma_patterns_matches_split(rule: Seq<char>, ps: Seq<ScannedPatternView>)
    requires
        ps.len() > 0,
    ensures
        patterns_matches(rule, ps) == pattern_matches(rule, ps[0]) + patterns_matches(
            rule,
            ps.drop_first(),
        ),
{
    let f = |p: ScannedPatternView| pattern_matches(rule, p);
    assert(ps.map_values(f).drop_first() =~= ps.drop_first().map_values(f));
}

proof fn lemma_scan_matches_split(s: Seq<ScannedRuleView>)
    requires
        s.len() > 0,
    ensures
        string_matches_of_scan(s) == patterns_matches(s[0].identifier, s[0].patterns)
            + string_matches_of_scan(s.drop_first()),
{
    let g = |r: ScannedRuleView| rule_string_matches(r);
    assert(s.map_values(g).drop_first() =~= s.drop_first().map_values(g));
}

proof fn lemma_patterns_matches_len(rule: Seq<char>, ps: Seq<ScannedPatternView>)
    ensures
        patterns_matches(rule, ps).len() == hit_count(ps),
    decreases ps.len(),
{
    if ps.len() == 0 {
        assert(ps.map_values(|p: ScannedPatternView| pattern_matches(rule, p)) =~= Seq::<
            Seq<StringMatchView>,
        >::empty());
    } else {
        lemma_patterns_matches_split(rule, ps);
        lemma_patterns_matches_len(rule, ps.drop_first());
    }
}

/// A scan outcome gives exactly one string match per pattern match: as many
/// string matches as its patterns hold matches, all rules together.
pub proof fn lemma_one_string_match_per_hit(s: Seq<ScannedRuleView>)
    ensures
        string_matches_of_scan(s).len() == scan_hit_count(s),
    decreases s.len(),
{
    if s.len() == 0 {
        assert(s.map_values(|r: ScannedRuleView| rule_string_matches(r)) =~= Seq::<
            Seq<StringMatchView>,
        >::empty());
    } else {
        lemma_scan_matches_split(s);
        lemma_patterns_matches_len(s[0].identifier, s[0].patterns);
        lemma_one_string_match_per_hit(s.drop_first());
    }
}

proof fn lemma_pattern_hit_position(
    rule: Seq<char>,
    ps: Seq<ScannedPatternView>,
    j: int,
    k: int,
) -> (idx: int)
    requires
        0 <= j < ps.len(),
        0 <= k < ps[j].hits.len(),
    ensures
        0 <= idx < patterns_matches(rule, ps).len(),
        patterns_matches(rule, ps)[idx] == hit_match(rule, ps[j].identifier, ps[j].hits[k]),
    decreases j,
{
    lemma_patterns_matches_split(rule, ps);
    let first = pattern_matches(rule, ps[0]);
    if j == 0 {
        k
    } else {
        let rest = ps.drop_first();
        assert(rest[j - 1] == ps[j]);
        let t = lemma_pattern_hit_position(rule, rest, j - 1, k);
        first.len() + t
    }
}

/// Every match the scanner reports is reported as a string match: match `k`
/// of pattern `j` of rule `i` appears in the string matches of the scan with
/// that rule's identifier, that pattern's identifier, its offset, and its
/// bytes rendered.
pub proof fn lemma_every_hit_reported(s: Seq<ScannedRuleView>, i: int, j: int, k: int)
    requires
        0 <= i < s.len(),
        0 <= j < s[i].patterns.len(),
        0 <= k < s[i].patterns[j].hits.len(),
    ensures
        exists|idx: int|
            0 <= idx < string_matches_of_scan(s).len() && #[trigger] string_matches_of_scan(s)[idx]
                == reported_hit(s, i, j, k),
    decreases i,
{
    lemma_scan_matches_split(s);
    let first = patterns_matches(s[0].identifier, s[0].patterns);
    if i == 0 {
        let idx = lemma_pattern_hit_position(s[0].identifier, s[0].patterns, j, k);
        assert(string_matches_of_scan(s)[idx] == reported_hit(s, i, j, k));
    } else {
        let rest = s.drop_first();
        assert(rest[i - 1] == s[i]);
        lemma_every_hit_reported(rest, i - 1, j, k);
        let t = choose|t: int|
            0 <= t < string_matches_of_scan(rest).len() && #[trigger] string_matches_of_scan(
                rest,
            )[t] == reported_hit(rest, i - 1, j, k);
        assert(reported_hit(rest, i - 1, j, k) == reported_hit(s, i, j, k));
        assert(string_matches_of_scan(s)[first.len() + t] == reported_hit(s, i, j, k));
    }
}

/// Some rule match in `ms` is for the rule named `rule`.
pub open spec fn lists_rule(ms: Seq<RuleMatchView>, rule: Seq<char>) -> bool {
    exists|i: int| 0 <= i < ms.len() && #[trigger] ms[i].rule == rule
}

/// Every pattern hit of a scan outcome belongs to a rule that the same
/// outcome lists as matching: the rule of each string match is the rule of
/// some rule match.
pub proof fn lemma_hit_rules_are_listed(s: Seq<ScannedRuleView>)
    ensures
        forall|k: int|
            0 <= k < string_matches_of_scan(s).len() ==> lists_rule(
                rule_matches_of_scan(s),
                #[trigger] string_matches_of_scan(s)[k].rule,
            ),
{
    let outer = s.map_values(|r: ScannedRuleView| rule_string_matches(r));
    let rm = rule_matches_of_scan(s);
    let q = |m: StringMatchView| lists_rule(rm, m.rule);
    assert forall|a: int, b: int| 0 <= a < outer.len() && 0 <= b < outer[a].len() implies q(
        #[trigger] outer[a][b],
    ) by {
        lemma_patterns_matches_rule(s[a].identifier, s[a].patterns);
        assert(outer[a] == patterns_matches(s[a].identifier, s[a].patterns));
        assert(outer[a][b].rule == s[a].identifier);
        assert(rm[a].rule == s[a].identifier);
    }
    lemma_flatten_all(outer, q);
    assert(string_matches_of_scan(s) == outer.flatten());
}

/// Scans `data` (cut to [`MAX_DATA_LEN`] bytes) against `rules` and returns
/// every matching rule, in the scanner's order. Total: a scanner error gives
/// no matches ([`rule_matches_of_outcome`]). Which rules match is the
/// engine's to say.
pub fn scan_rules(rules: &yara_x::Rules, data: &[u8]) -> (r: Vec<RuleMatch>)
    ensures
        possible_rule_matches(rule_matches_view(r@), bounded_data(data@)),
        exists|o: Option<Vec<ScannedRule>>|
            #[trigger] scanner_may_return(rules, bounded_data(data@), o) && rule_matches_view(r@)
                == outcome_rule_matches(o),
{
    let b = bounded(data);
    let outcome = yara_scan(rules, b);
    let r = rule_matches_of_outcome(&outcome);
    proof {
        assert(call_ensures(yara_scan, (rules, b), outcome));
        assert(scanner_may_return(rules, bounded_data(data@), outcome));
        let s = match outcome {
            Some(v) => scanned_view(v@),
            None => Seq::<ScannedRuleView>::empty(),
        };
        if outcome is None {
            assert(rule_matches_of_scan(s) =~= Seq::<RuleMatchView>::empty());
        }
        assert(scan_consistent(s, bounded_data(data@)));
        assert(rule_matches_of_scan(s) == rule_matches_view(r@));
    }
    r
}

/// Scans `data` (cut to [`MAX_DATA_LEN`] bytes) against `rules` and returns
/// one [`StringMatch`] per pattern hit, rule by rule and pattern by pattern,
/// each pattern's hits in ascending offset order. Total: a scanner error gives
/// no hits ([`string_matches_of_outcome`]). Every hit shows the scanned bytes
/// at its offset.
pub fn scan_strings(rules: &yara_x::Rules, data: &[u8]) -> (r: Vec<StringMatch>)
    ensures
        possible_string_matches(string_matches_view(r@), bounded_data(data@)),
        forall|k: int| 0 <= k < r@.len() ==> renders_data_at(#[trigger] r@[k]@, bounded_data(data@)),
        exists|o: Option<Vec<ScannedRule>>|
            #[trigger] scanner_may_return(rules, bounded_data(data@), o) && string_matches_view(r@)
                == outcome_string_matches(o),
{
    let b = bounded(data);
    let outcome = yara_scan(rules, b);
    let r = string_matches_of_outcome(&outcome);
    proof {
        assert(call_ensures(yara_scan, (rules, b), outcome));
        assert(scanner_may_return(rules, bounded_data(data@), outcome));
        let s = match outcome {
            Some(v) => scanned_view(v@),
            None => Seq::<ScannedRuleView>::empty(),
        };
        if outcome is None {
            assert(s.map_values(|x: ScannedRuleView| rule_string_matches(x)) =~= Seq::<
                Seq<StringMatchView>,
            >::empty());
        }
        assert(scan_consistent(s, bounded_data(data@)));
        assert(string_matches_of_scan(s) == string_matches_view(r@));
        lemma_string_matches_render(s, bounded_data(data@));
        assert forall|k: int| 0 <= k < r@.len() implies renders_data_at(
            #[trigger] r@[k]@,
            bounded_data(data@),
        ) by {
            assert(string_matches_view(r@)[k] == r@[k]@);
        }
    }
    r
}

/// Compiles `source` and scans `data`, returning the matching rules.
/// Compilation errors propagate; scanning is total.
pub fn compile_and_scan_rules(source: &str, data: &[u8]) -> (r: Result<Vec<RuleMatch>, YaraError>)
    ensures
        compile_verdict(source@, r is Ok),
        r matches Err(e) ==> compile_error_text(source@, e.0@),
        r matches Ok(v) ==> possible_rule_matches(rule_matches_view(v@), bounded_data(data@)),
        r matches Ok(v) ==> exists|rules: yara_x::Rules, o: Option<Vec<ScannedRule>>|
            compiled_from(rules, source@) && #[trigger] scanner_may_return(
                &rules,
                bounded_data(data@),
                o,
            ) && rule_matches_view(v@) == outcome_rule_matches(o),
{
    let rules = compile_rules(source)?;
    Ok(scan_rules(&rules, data))
}

/// Compiles `source` and scans `data`, returning the pattern hits.
/// Compilation errors propagate; scanning is total.
pub fn compile_and_scan_strings(source: &str, data: &[u8]) -> (r: Result<Vec<StringMatch>, YaraError>)
    ensures
        compile_verdict(source@, r is Ok),
        r matches Err(e) ==> compile_error_text(source@, e.0@),
        r matches Ok(v) ==> possible_string_matches(string_matches_view(v@), bounded_data(data@)),
        r matches Ok(v) ==> forall|k: int|
            0 <= k < v@.len() ==> renders_data_at(#[trigger] v@[k]@, bounded_data(data@)),
        r matches Ok(v) ==> exists|rules: yara_x::Rules, o: Option<Vec<ScannedRule>>|
            compiled_from(rules, source@) && #[trigger] scanner_may_return(
                &rules,
                bounded_data(data@),
                o,
            ) && string_matches_view(v@) == outcome_string_matches(o),
{
    let rules = compile_rules(source)?;
    Ok(scan_strings(&rules, data))
}

} // verus!
