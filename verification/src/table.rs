//! The table functions' logic: the compiled-in module list, and the one-shot
//! producers of `yara_scan`, `yara_string_matches` and `yara_modules`.

use vstd::prelude::*;
use crate::scanning::{
    bounded_data, clone_strings, compile_error_text, compile_rules, compile_verdict,
    compiled_from, outcome_rule_matches, outcome_string_matches, scanner_may_return, ScannedRule,
    possible_rule_matches, possible_string_matches, renders_data_at, rule_matches_view, scan_rules,
    scan_strings, string_matches_view, strings_view, RuleMatch, RuleMatchView, StringMatch,
    StringMatchView, YaraError,
};

verus! {

/// `a` comes strictly before `b` in lexicographic (code point) order.
pub open spec fn lex_less(a: Seq<char>, b: Seq<char>) -> bool
    decreases a.len(),
{
    if a.len() == 0 {
        b.len() > 0
    } else if b.len() == 0 {
        false
    } else if (a[0] as u32) < (b[0] as u32) {
        true
    } else if a[0] == b[0] {
        lex_less(a.drop_first(), b.drop_first())
    } else {
        false
    }
}

/// The YARA-X modules compiled into this worker: the name a rule may
/// `import`, and what a rule uses it for.
pub open spec fn module_table() -> Seq<(Seq<char>, Seq<char>)> {
    seq![
        ("console"@, "Emit log messages from a rule's condition while it evaluates, for debugging rule logic."@),
        ("elf"@, "Inspect ELF executables: sections, segments, symbols, entry point and machine/type fields."@),
        ("hash"@, "Compute MD5, SHA-1, SHA-256, CRC32 and checksums over the file or a byte range for content signatures."@),
        ("math"@, "Arithmetic and statistics over byte ranges: entropy, mean, deviation, min/max and serial correlation."@),
        ("pe"@, "Inspect Windows PE executables: headers, sections, imports, exports, resources and signatures."@),
        ("string"@, "Helpers for working with matched or extracted strings, such as length and byte conversions."@),
        ("time"@, "Access the current time so a rule condition can reason about when the scan runs."@),
    ]
}

/// The module list, in table order.
pub fn modules() -> (r: Vec<(&'static str, &'static str)>)
    ensures
        r@.len() == module_table().len(),
        forall|i: int| 0 <= i < r@.len() ==> (#[trigger] r@[i].0@, r@[i].1@) == module_table()[i],
{
    let mut r: Vec<(&'static str, &'static str)> = Vec::new();
    r.push(("console", "Emit log messages from a rule's condition while it evaluates, for debugging rule logic."));
    r.push(("elf", "Inspect ELF executables: sections, segments, symbols, entry point and machine/type fields."));
    r.push(("hash", "Compute MD5, SHA-1, SHA-256, CRC32 and checksums over the file or a byte range for content signatures."));
    r.push(("math", "Arithmetic and statistics over byte ranges: entropy, mean, deviation, min/max and serial correlation."));
    r.push(("pe", "Inspect Windows PE executables: headers, sections, imports, exports, resources and signatures."));
    r.push(("string", "Helpers for working with matched or extracted strings, such as length and byte conversions."));
    r.push(("time", "Access the current time so a rule condition can reason about when the scan runs."));
    r
}

/// The module list is sorted by module name, with no name twice.
pub proof fn lemma_modules_sorted()
    ensures
        forall|i: int, j: int|
            0 <= i < j < module_table().len() ==> lex_less(
                #[trigger] module_table()[i].0,
                #[trigger] module_table()[j].0,
            ),
{
    reveal_strlit("console");
    reveal_strlit("elf");
    reveal_strlit("hash");
    reveal_strlit("math");
    reveal_strlit("pe");
    reveal_strlit("string");
    reveal_strlit("time");
    let t = module_table();
    assert forall|i: int, j: int| 0 <= i < j < t.len() implies lex_less(
        #[trigger] t[i].0,
        #[trigger] t[j].0,
    ) by {
        assert((t[i].0[0] as u32) < (t[j].0[0] as u32));
    }
}

/// Number of modules `yara_modules` produces.
pub fn module_count() -> (n: usize)
    ensures
        n == module_table().len(),
{
    modules().len()
}

/// Reads the `data` argument as bytes: the BLOB value if there is one, else
/// the bytes of the VARCHAR value.
pub fn const_data_bytes(blob: Option<Vec<u8>>, text: Option<Vec<u8>>) -> (r: Option<Vec<u8>>)
    ensures
        r == (if blob is Some {
            blob
        } else {
            text
        }),
{
    match blob {
        Some(b) => Some(b),
        None => text,
    }
}

/// The columns of a `yara_scan` batch.
pub struct ScanBatch {
    pub rule: Vec<String>,
    pub namespace: Vec<String>,
    pub tags: Vec<Vec<String>>,
}

/// The columns of a `yara_string_matches` batch.
pub struct StringMatchBatch {
    pub rule: Vec<String>,
    pub identifier: Vec<String>,
    pub offset: Vec<i64>,
    pub matched: Vec<String>,
}

/// `b` holds the rule matches `rows`, one per row.
pub open spec fn scan_batch_holds(b: ScanBatch, rows: Seq<RuleMatchView>) -> bool {
    &&& strings_view(b.rule@) == rows.map_values(|m: RuleMatchView| m.rule)
    &&& strings_view(b.namespace@) == rows.map_values(|m: RuleMatchView| m.namespace)
    &&& b.tags@.map_values(|t: Vec<String>| strings_view(t@)) == rows.map_values(
        |m: RuleMatchView| m.tags,
    )
}

/// `b` holds the string matches `rows`, one per row; the offsets are the
/// `BIGINT` (`i64`) casts of the matches' offsets.
pub open spec fn string_batch_holds(b: StringMatchBatch, rows: Seq<StringMatchView>) -> bool {
    &&& strings_view(b.rule@) == rows.map_values(|m: StringMatchView| m.rule)
    &&& strings_view(b.identifier@) == rows.map_values(|m: StringMatchView| m.identifier)
    &&& b.offset@ == rows.map_values(|m: StringMatchView| m.offset as i64)
    &&& strings_view(b.matched@) == rows.map_values(|m: StringMatchView| m.matched)
}

/// The one-shot producer of `yara_scan`: one batch with every row, then
/// nothing.
pub struct ScanProducer {
    rows: Vec<RuleMatch>,
    done: bool,
}

impl ScanProducer {
    /// The rows still to be produced.
    pub closed spec fn rows_view(&self) -> Seq<RuleMatchView> {
        rule_matches_view(self.rows@)
    }

    /// Whether the batch was produced already.
    pub closed spec fn is_done(&self) -> bool {
        self.done
    }

    /// A producer of the given rows.
    pub fn new(rows: Vec<RuleMatch>) -> (r: Self)
        ensures
            r.rows_view() == rule_matches_view(rows@),
            !r.is_done(),
    {
        ScanProducer { rows, done: false }
    }

    /// The next batch: all rows the first time, `None` afterwards.
    pub fn next_batch(&mut self) -> (r: Option<ScanBatch>)
        ensures
            old(self).is_done() ==> r is None,
            !old(self).is_done() ==> (r matches Some(b) && scan_batch_holds(b, old(self).rows_view())),
            final(self).is_done(),
            final(self).rows_view() == old(self).rows_view(),
    {
        if self.done {
            return None;
        }
        self.done = true;
        let mut rule: Vec<String> = Vec::new();
        let mut namespace: Vec<String> = Vec::new();
        let mut tags: Vec<Vec<String>> = Vec::new();
        let ghost rows = rule_matches_view(self.rows@);
        let mut i: usize = 0;
        while i < self.rows.len()
            invariant
                i <= self.rows@.len(),
                rows == rule_matches_view(self.rows@),
                rule@.len() == i && namespace@.len() == i && tags@.len() == i,
                forall|k: int| 0 <= k < i ==> (#[trigger] rule@[k])@ == rows[k].rule,
                forall|k: int| 0 <= k < i ==> (#[trigger] namespace@[k])@ == rows[k].namespace,
                forall|k: int| 0 <= k < i ==> strings_view((#[trigger] tags@[k])@) == rows[k].tags,
            decreases self.rows.len() - i,
        {
            let m = &self.rows[i];
            assert(rows[i as int] == m@);
            rule.push(m.rule.clone());
            namespace.push(m.namespace.clone());
            tags.push(clone_strings(&m.tags));
            i += 1;
        }
        let b = ScanBatch { rule, namespace, tags };
        assert(strings_view(b.rule@) =~= rows.map_values(|m: RuleMatchView| m.rule));
        assert(strings_view(b.namespace@) =~= rows.map_values(|m: RuleMatchView| m.namespace));
        assert(b.tags@.map_values(|t: Vec<String>| strings_view(t@)) =~= rows.map_values(
            |m: RuleMatchView| m.tags,
        ));
        Some(b)
    }
}

/// The one-shot producer of `yara_string_matches`: one batch with every row,
/// then nothing.
pub struct StringMatchProducer {
    rows: Vec<StringMatch>,
    done: bool,
}

impl StringMatchProducer {
    /// The rows still to be produced.
    pub closed spec fn rows_view(&self) -> Seq<StringMatchView> {
        string_matches_view(self.rows@)
    }

    /// Whether the batch was produced already.
    pub closed spec fn is_done(&self) -> bool {
        self.done
    }

    /// A producer of the given rows.
    pub fn new(rows: Vec<StringMatch>) -> (r: Self)
        ensures
            r.rows_view() == string_matches_view(rows@),
            !r.is_done(),
    {
        StringMatchProducer { rows, done: false }
    }

    /// The next batch: all rows the first time, `None` afterwards.
    pub fn next_batch(&mut self) -> (r: Option<StringMatchBatch>)
        ensures
            old(self).is_done() ==> r is None,
            !old(self).is_done() ==> (r matches Some(b) && string_batch_holds(
                b,
                old(self).rows_view(),
            )),
            final(self).is_done(),
            final(self).rows_view() == old(self).rows_view(),
    {
        if self.done {
            return None;
        }
        self.done = true;
        let mut rule: Vec<String> = Vec::new();
        let mut identifier: Vec<String> = Vec::new();
        let mut offset: Vec<i64> = Vec::new();
        let mut matched: Vec<String> = Vec::new();
        let ghost rows = string_matches_view(self.rows@);
        let mut i: usize = 0;
        while i < self.rows.len()
            invariant
                i <= self.rows@.len(),
                rows == string_matches_view(self.rows@),
                rule@.len() == i && identifier@.len() == i && offset@.len() == i && matched@.len()
                    == i,
                forall|k: int| 0 <= k < i ==> (#[trigger] rule@[k])@ == rows[k].rule,
                forall|k: int| 0 <= k < i ==> (#[trigger] identifier@[k])@ == rows[k].identifier,
                forall|k: int| 0 <= k < i ==> #[trigger] offset@[k] == rows[k].offset as i64,
                forall|k: int| 0 <= k < i ==> (#[trigger] matched@[k])@ == rows[k].matched,
            decreases self.rows.len() - i,
        {
            let m = &self.rows[i];
            assert(rows[i as int] == m@);
            rule.push(m.rule.clone());
            identifier.push(m.identifier.clone());
            offset.push(m.offset as i64);
            matched.push(m.matched.clone());
            i += 1;
        }
        let b = StringMatchBatch { rule, identifier, offset, matched };
        assert(strings_view(b.rule@) =~= rows.map_values(|m: StringMatchView| m.rule));
        assert(strings_view(b.identifier@) =~= rows.map_values(|m: StringMatchView| m.identifier));
        assert(b.offset@ =~= rows.map_values(|m: StringMatchView| m.offset as i64));
        assert(strings_view(b.matched@) =~= rows.map_values(|m: StringMatchView| m.matched));
        Some(b)
    }
}

/// The one-shot producer of `yara_modules`.
pub struct ModulesProducer {
    done: bool,
}

impl ModulesProducer {
    /// Whether the batch was produced already.
    pub closed spec fn is_done(&self) -> bool {
        self.done
    }

    /// The next batch: the module names and descriptions the first time,
    /// `None` afterwards.
    pub fn next_batch(&mut self) -> (r: Option<(Vec<&'static str>, Vec<&'static str>)>)
        ensures
            old(self).is_done() ==> r is None,
            !old(self).is_done() ==> (r matches Some(cols) && {
                &&& cols.0@.len() == module_table().len()
                &&& cols.1@.len() == module_table().len()
                &&& forall|i: int|
                    0 <= i < module_table().len() ==> (#[trigger] cols.0@[i])@ == module_table()[i].0
                        && cols.1@[i]@ == module_table()[i].1
            }),
            final(self).is_done(),
    {
        if self.done {
            return None;
        }
        self.done = true;
        let table = modules();
        let mut names: Vec<&'static str> = Vec::new();
        let mut descriptions: Vec<&'static str> = Vec::new();
        let mut i: usize = 0;
        while i < table.len()
            invariant
                i <= table@.len(),
                table@.len() == module_table().len(),
                forall|k: int| 0 <= k < table@.len() ==> (#[trigger] table@[k].0@, table@[k].1@)
                    == module_table()[k],
                names@.len() == i && descriptions@.len() == i,
                forall|k: int|
                    0 <= k < i ==> (#[trigger] names@[k])@ == module_table()[k].0
                        && descriptions@[k]@ == module_table()[k].1,
            decreases table.len() - i,
        {
            let (n, d) = table[i];
            assert((table@[i as int].0@, table@[i as int].1@) == module_table()[i as int]);
            names.push(n);
            descriptions.push(d);
            i += 1;
        }
        Some((names, descriptions))
    }
}

/// The `yara_modules` table function.
pub struct YaraModules;

impl YaraModules {
    /// The SQL name of the function.
    pub fn name(&self) -> (r: &'static str)
        ensures
            r@ == "yara_modules"@,
    {
        "yara_modules"
    }

    /// A fresh producer of the module table.
    pub fn producer(&self) -> (r: ModulesProducer)
        ensures
            !r.is_done(),
    {
        ModulesProducer { done: false }
    }
}

/// The `yara_scan` table function: one row per matching rule.
pub struct YaraScan;

impl YaraScan {
    /// The SQL name of the function.
    pub fn name(&self) -> (r: &'static str)
        ensures
            r@ == "yara_scan"@,
    {
        "yara_scan"
    }

    /// The producer for the constant arguments `data` and `rules` (`None` is
    /// NULL or absent). NULL rules or NULL data give no rows; an invalid rule
    /// source is an error (even with NULL data); otherwise the rows are the
    /// data's matching rules, as the engine reports them.
    pub fn producer(&self, data: Option<Vec<u8>>, rules: Option<String>) -> (r: Result<
        ScanProducer,
        YaraError,
    >)
        ensures
            rules is None ==> r is Ok,
            rules matches Some(src) ==> compile_verdict(src@, r is Ok),
            r matches Err(e) ==> (rules matches Some(src) && compile_error_text(src@, e.0@)),
            r matches Ok(p) ==> {
                &&& !p.is_done()
                &&& (rules is None || data is None) ==> p.rows_view().len() == 0
                &&& forall|d: Vec<u8>|
                    data == Some(d) && rules is Some ==> #[trigger] possible_rule_matches(
                        p.rows_view(),
                        bounded_data(d@),
                    )
                &&& forall|d: Vec<u8>, src: String|
                    data == Some(d) && rules == Some(src) ==> exists|
                        compiled: yara_x::Rules,
                        o: Option<Vec<ScannedRule>>,
                    |
                        compiled_from(compiled, src@) && #[trigger] scanner_may_return(
                            &compiled,
                            bounded_data(d@),
                            o,
                        ) && p.rows_view() == outcome_rule_matches(o)
            },
    {
        let rows = match rules {
            None => Vec::new(),
            Some(src) => {
                let compiled = compile_rules(src.as_str())?;
                match data {
                    None => Vec::new(),
                    Some(bytes) => scan_rules(&compiled, bytes.as_slice()),
                }
            },
        };
        Ok(ScanProducer::new(rows))
    }
}

/// The `yara_string_matches` table function: one row per pattern hit.
pub struct YaraStringMatches;

impl YaraStringMatches {
    /// The SQL name of the function.
    pub fn name(&self) -> (r: &'static str)
        ensures
            r@ == "yara_string_matches"@,
    {
        "yara_string_matches"
    }

    /// The producer for the constant arguments `data` and `rules` (`None` is
    /// NULL or absent). NULL rules or NULL data give no rows; an invalid rule
    /// source is an error; otherwise the rows are the data's pattern hits.
    pub fn producer(&self, data: Option<Vec<u8>>, rules: Option<String>) -> (r: Result<
        StringMatchProducer,
        YaraError,
    >)
        ensures
            rules is None ==> r is Ok,
            rules matches Some(src) ==> compile_verdict(src@, r is Ok),
            r matches Err(e) ==> (rules matches Some(src) && compile_error_text(src@, e.0@)),
            r matches Ok(p) ==> {
                &&& !p.is_done()
                &&& (rules is None || data is None) ==> p.rows_view().len() == 0
                &&& forall|d: Vec<u8>|
                    data == Some(d) && rules is Some ==> {
                        &&& #[trigger] possible_string_matches(p.rows_view(), bounded_data(d@))
                        &&& forall|k: int|
                            0 <= k < p.rows_view().len() ==> renders_data_at(
                                #[trigger] p.rows_view()[k],
                                bounded_data(d@),
                            )
                    }
                &&& forall|d: Vec<u8>, src: String|
                    data == Some(d) && rules == Some(src) ==> exists|
                        compiled: yara_x::Rules,
                        o: Option<Vec<ScannedRule>>,
                    |
                        compiled_from(compiled, src@) && #[trigger] scanner_may_return(
                            &compiled,
                            bounded_data(d@),
                            o,
                        ) && p.rows_view() == outcome_string_matches(o)
            },
    {
        let rows = match rules {
            None => Vec::new(),
            Some(src) => {
                let compiled = compile_rules(src.as_str())?;
                match data {
                    None => Vec::new(),
                    Some(bytes) => scan_strings(&compiled, bytes.as_slice()),
                }
            },
        };
        Ok(StringMatchProducer::new(rows))
    }
}

} // verus!
