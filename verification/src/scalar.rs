//! The scalar functions' logic: per-row scanning with NULL propagation and a
//! one-entry rule cache, rule validation, and the version column.
//!
//! Either operand NULL gives NULL. An invalid rule source on a row whose data
//! is present is an error for the whole batch; scanning is total.

use vstd::prelude::*;
use crate::meta::version;
use crate::scanning::{
    bounded_data, compile_error_text, compile_rules, compile_verdict, compiled_from,
    may_read_files, outcome_rule_matches, possible_rule_matches, rule_matches_view, rules_compile,
    scan_rules, scanner_may_return, yara_source_compiles, RuleMatch, RuleMatchView, ScannedRule,
    YaraError,
};

verus! {

/// Which projection of a scan a scalar produces.
#[derive(Clone, Copy, PartialEq, Eq)]
pub enum Kind {
    /// `yara_matches`: does the data match any rule?
    Matches,
    /// `yara_first_rule`: identifier of the first matching rule.
    FirstRule,
    /// `yara_match_count`: number of matching rules.
    MatchCount,
}

/// One output cell, in the spec.
pub enum CellView {
    Bool(bool),
    Text(Seq<char>),
    Int(i32),
}

/// The cell a scalar of kind `kind` produces for the rule matches `ms`.
pub open spec fn project(kind: Kind, ms: Seq<RuleMatchView>) -> Option<CellView> {
    match kind {
        Kind::Matches => Some(CellView::Bool(ms.len() > 0)),
        Kind::FirstRule => if ms.len() > 0 {
            Some(CellView::Text(ms[0].rule))
        } else {
            None
        },
        Kind::MatchCount => Some(CellView::Int(ms.len() as i32)),
    }
}

/// One input row of a `(data, rules)` scalar; `None` is NULL.
pub type DataRulesRow = (Option<Vec<u8>>, Option<String>);

/// The row has data and a rule source without `include` statements that does
/// not compile: it fails whenever it is reached.
pub open spec fn row_fails(row: DataRulesRow) -> bool {
    match row {
        (Some(_), Some(src)) => !may_read_files(src@) && !yara_source_compiles(src@),
        _ => false,
    }
}

/// The row has data and a rule source that may fail to compile: one that does
/// not compile, or one with `include` statements (whose outcome depends on the
/// files they name).
pub open spec fn row_may_fail(row: DataRulesRow) -> bool {
    match row {
        (Some(_), Some(src)) => may_read_files(src@) || !yara_source_compiles(src@),
        _ => false,
    }
}

/// `cell` is what a scalar of kind `kind` may produce for `row`: NULL when
/// either operand is NULL, else the projection of the matching rules of a scan
/// outcome consistent with the row's data, cut to [`crate::scanning::MAX_DATA_LEN`]
/// bytes (which rules match is the engine's to say).
pub open spec fn row_answered(kind: Kind, row: DataRulesRow, cell: Option<CellView>) -> bool {
    match row {
        (Some(d), Some(_)) => exists|ms: Seq<RuleMatchView>|
            possible_rule_matches(ms, bounded_data(d@)) && #[trigger] project(kind, ms) == cell,
        _ => cell is None,
    }
}

/// `cell` is what a scalar of kind `kind` gives for `row` when the row is
/// scanned with its own rules: NULL when either operand is NULL, else the
/// projection of the matching rules of an outcome the scanner may give for
/// rules compiled from the row's source over the row's data (cut to
/// [`crate::scanning::MAX_DATA_LEN`] bytes).
pub open spec fn row_scanned(kind: Kind, row: DataRulesRow, cell: Option<CellView>) -> bool {
    match row {
        (Some(d), Some(src)) => exists|rules: yara_x::Rules, o: Option<Vec<ScannedRule>>|
            compiled_from(rules, src@) && #[trigger] scanner_may_return(
                &rules,
                bounded_data(d@),
                o,
            ) && cell == project(kind, outcome_rule_matches(o)),
        _ => cell is None,
    }
}

/// Row `i` is the first row that failed: it may fail, and no row before it
/// fails.
pub open spec fn first_failing_row(rows: Seq<DataRulesRow>, i: int) -> bool {
    &&& 0 <= i < rows.len()
    &&& row_may_fail(rows[i])
    &&& forall|k: int| 0 <= k < i ==> !row_fails(#[trigger] rows[k])
}

/// The error for a batch: a compile error of the rule source of the first row
/// that failed.
pub open spec fn batch_error(rows: Seq<DataRulesRow>, e: YaraError) -> bool {
    exists|i: int|
        #[trigger] first_failing_row(rows, i) && (rows[i].1 matches Some(src)
            && compile_error_text(src@, e.0@))
}

/// The three scan scalars agree on the same matches: `yara_matches` is true
/// exactly when `yara_first_rule` is not NULL, and exactly when
/// `yara_match_count` is not 0 (as long as the count fits in an `INT`).
pub proof fn lemma_projections_agree(ms: Seq<RuleMatchView>)
    requires
        ms.len() <= i32::MAX,
    ensures
        project(Kind::Matches, ms) == Some(CellView::Bool(true)) <==> project(
            Kind::FirstRule,
            ms,
        ) is Some,
        project(Kind::Matches, ms) == Some(CellView::Bool(true)) <==> project(
            Kind::MatchCount,
            ms,
        ) != Some(CellView::Int(0)),
        project(Kind::MatchCount, ms) == Some(CellView::Int(ms.len() as i32)),
        ms.len() as i32 == ms.len(),
        ms.len() > 0 ==> project(Kind::FirstRule, ms) == Some(CellView::Text(ms[0].rule)),
{
}

/// A column of scalar results, one variant per kind.
pub enum ScalarColumn {
    Matches(Vec<Option<bool>>),
    FirstRule(Vec<Option<String>>),
    MatchCount(Vec<Option<i32>>),
}

impl ScalarColumn {
    /// The kind of scalar this column holds.
    pub open spec fn kind(&self) -> Kind {
        match self {
            ScalarColumn::Matches(_) => Kind::Matches,
            ScalarColumn::FirstRule(_) => Kind::FirstRule,
            ScalarColumn::MatchCount(_) => Kind::MatchCount,
        }
    }

    /// The cells of the column.
    pub open spec fn cells(&self) -> Seq<Option<CellView>> {
        match self {
            ScalarColumn::Matches(v) => v@.map_values(
                |c: Option<bool>|
                    match c {
                        Some(b) => Some(CellView::Bool(b)),
                        None => None,
                    },
            ),
            ScalarColumn::FirstRule(v) => v@.map_values(
                |c: Option<String>|
                    match c {
                        Some(s) => Some(CellView::Text(s@)),
                        None => None,
                    },
            ),
            ScalarColumn::MatchCount(v) => v@.map_values(
                |c: Option<i32>|
                    match c {
                        Some(n) => Some(CellView::Int(n)),
                        None => None,
                    },
            ),
        }
    }

    /// An empty column of the given kind.
    pub fn new(kind: Kind) -> (r: Self)
        ensures
            r.kind() == kind,
            r.cells() == Seq::<Option<CellView>>::empty(),
    {
        let r = match kind {
            Kind::Matches => ScalarColumn::Matches(Vec::new()),
            Kind::FirstRule => ScalarColumn::FirstRule(Vec::new()),
            Kind::MatchCount => ScalarColumn::MatchCount(Vec::new()),
        };
        assert(r.cells() =~= Seq::<Option<CellView>>::empty());
        r
    }

    /// Appends a NULL cell.
    pub fn append_null(&mut self)
        ensures
            final(self).kind() == old(self).kind(),
            final(self).cells() == old(self).cells().push(None),
    {
        match self {
            ScalarColumn::Matches(v) => v.push(None),
            ScalarColumn::FirstRule(v) => v.push(None),
            ScalarColumn::MatchCount(v) => v.push(None),
        }
        assert(self.cells() =~= old(self).cells().push(None));
    }

    /// Appends the cell for the rule matches `ms`: whether there is any, the
    /// first one's identifier (NULL when there is none), or how many there are.
    pub fn push_scan(&mut self, ms: &Vec<RuleMatch>)
        ensures
            final(self).kind() == old(self).kind(),
            final(self).cells() == old(self).cells().push(
                project(old(self).kind(), rule_matches_view(ms@)),
            ),
            final(self).cells().len() == old(self).cells().len() + 1,
            final(self).cells().drop_last() == old(self).cells(),
            old(self).kind() == Kind::Matches ==> final(self).cells().last() == Some(
                CellView::Bool(ms@.len() != 0),
            ),
            old(self).kind() == Kind::FirstRule && ms@.len() != 0 ==> final(self).cells().last()
                == Some(CellView::Text(ms@[0].rule@)),
            old(self).kind() == Kind::FirstRule && ms@.len() == 0 ==> final(self).cells().last()
                is None,
            old(self).kind() == Kind::MatchCount ==> final(self).cells().last() == Some(
                CellView::Int(ms@.len() as i32),
            ),
    {
        let ghost mv = rule_matches_view(ms@);
        match self {
            ScalarColumn::Matches(v) => v.push(Some(ms.len() > 0)),
            ScalarColumn::FirstRule(v) => {
                if ms.len() > 0 {
                    assert(mv[0] == ms@[0]@);
                    v.push(Some(ms[0].rule.clone()));
                } else {
                    v.push(None);
                }
            },
            ScalarColumn::MatchCount(v) => v.push(Some(ms.len() as i32)),
        }
        assert(self.cells() =~= old(self).cells().push(project(old(self).kind(), mv)));
        assert(self.cells().drop_last() =~= old(self).cells());
    }

    /// Scans `data` against `rules` and appends the cell for the matching
    /// rules the engine reports ([`ScalarColumn::push_scan`] of
    /// [`scan_rules`]).
    pub fn append(&mut self, rules: &yara_x::Rules, data: &[u8])
        ensures
            final(self).kind() == old(self).kind(),
            exists|ms: Seq<RuleMatchView>|
                possible_rule_matches(ms, bounded_data(data@)) && final(self).cells()
                    == old(self).cells().push(#[trigger] project(old(self).kind(), ms)),
            exists|o: Option<Vec<ScannedRule>>|
                #[trigger] scanner_may_return(rules, bounded_data(data@), o) && final(self).cells()
                    == old(self).cells().push(project(old(self).kind(), outcome_rule_matches(o))),
    {
        let ms = scan_rules(rules, data);
        self.push_scan(&ms);
    }
}

/// A one-entry cache of the last compiled rule source, so a constant rules
/// column compiles once per batch.
pub struct RuleCache {
    last_src: Option<String>,
    last_rules: Option<yara_x::Rules>,
}

impl RuleCache {
    /// The source of the cached rules, if any.
    pub closed spec fn cached_source(&self) -> Option<Seq<char>> {
        match self.last_src {
            Some(s) => Some(s@),
            None => None,
        }
    }

    /// The cached rules, if any.
    pub closed spec fn cached_rules(&self) -> Option<yara_x::Rules> {
        self.last_rules
    }

    /// Rules are cached exactly when a source is, and that source compiled.
    pub closed spec fn wf(&self) -> bool {
        &&& self.last_src is Some <==> self.last_rules is Some
        &&& self.last_src matches Some(s) ==> compile_verdict(s@, true)
        &&& self.last_src matches Some(s) ==> (self.last_rules matches Some(x) && compiled_from(
            x,
            s@,
        ))
    }

    /// An empty cache.
    pub fn new() -> (r: Self)
        ensures
            r.wf(),
            r.cached_source() is None,
    {
        RuleCache { last_src: None, last_rules: None }
    }

    /// The rules compiled from `src`: the cached ones when `src` is the cached
    /// source, else freshly compiled (and then cached). A compilation error
    /// leaves the cache as it was.
    pub fn get(&mut self, src: &String) -> (r: Result<&yara_x::Rules, YaraError>)
        requires
            old(self).wf(),
        ensures
            final(self).wf(),
            compile_verdict(src@, r is Ok),
            r is Ok ==> final(self).cached_source() == Some(src@),
            r matches Ok(rules) ==> final(self).cached_rules() == Some(*rules),
            r matches Ok(rules) ==> compiled_from(*rules, src@),
            r matches Err(e) ==> compile_error_text(src@, e.0@),
            r is Err ==> *final(self) == *old(self),
            old(self).cached_source() == Some(src@) ==> *final(self) == *old(self),
    {
        let hit = match &self.last_src {
            Some(s) => *s == *src,
            None => false,
        };
        if !hit {
            let rules = compile_rules(src.as_str())?;
            self.last_src = Some(src.clone());
            self.last_rules = Some(rules);
        }
        Ok(self.last_rules.as_ref().unwrap())
    }
}

/// Runs a `(data, rules)` scalar of kind `kind` over a batch of rows. Either
/// operand NULL gives a NULL cell; otherwise the data is scanned against the
/// compiled rules. A row with data whose rule source does not compile fails
/// the batch.
pub fn process_kind(kind: Kind, rows: &Vec<DataRulesRow>) -> (r: Result<ScalarColumn, YaraError>)
    ensures
        (exists|i: int| 0 <= i < rows@.len() && row_fails(#[trigger] rows@[i])) ==> r is Err,
        r matches Err(e) ==> batch_error(rows@, e),
        r matches Ok(col) ==> {
            &&& col.kind() == kind
            &&& col.cells().len() == rows@.len()
            &&& forall|i: int|
                0 <= i < rows@.len() ==> row_answered(kind, #[trigger] rows@[i], col.cells()[i])
            &&& forall|i: int|
                0 <= i < rows@.len() ==> row_scanned(kind, #[trigger] rows@[i], col.cells()[i])
        },
{
    let mut out = ScalarColumn::new(kind);
    let mut cache = RuleCache::new();
    let mut i: usize = 0;
    while i < rows.len()
        invariant
            i <= rows@.len(),
            cache.wf(),
            out.kind() == kind,
            out.cells().len() == i,
            forall|k: int| 0 <= k < i ==> row_answered(kind, #[trigger] rows@[k], out.cells()[k]),
            forall|k: int| 0 <= k < i ==> row_scanned(kind, #[trigger] rows@[k], out.cells()[k]),
            forall|k: int| 0 <= k < i ==> !row_fails(#[trigger] rows@[k]),
        decreases rows.len() - i,
    {
        let row = &rows[i];
        let ghost before = out.cells();
        match (&row.0, &row.1) {
            (Some(bytes), Some(src)) => {
                match cache.get(src) {
                    Ok(rules) => {
                        out.append(rules, bytes.as_slice());
                        proof {
                            let ms = choose|ms: Seq<RuleMatchView>|
                                possible_rule_matches(ms, bounded_data(bytes@)) && out.cells()
                                    == before.push(#[trigger] project(kind, ms));
                            assert(out.cells()[i as int] == project(kind, ms));
                            assert(row_answered(kind, rows@[i as int], out.cells()[i as int]));
                            let o = choose|o: Option<Vec<ScannedRule>>|
                                #[trigger] scanner_may_return(rules, bounded_data(bytes@), o)
                                    && out.cells() == before.push(
                                    project(kind, outcome_rule_matches(o)),
                                );
                            assert(out.cells()[i as int] == project(kind, outcome_rule_matches(o)));
                            assert(compiled_from(*rules, src@));
                            assert(scanner_may_return(&(*rules), bounded_data(bytes@), o));
                            assert(row_scanned(kind, rows@[i as int], out.cells()[i as int]));
                            assert forall|k: int| 0 <= k < i implies row_answered(
                                kind,
                                #[trigger] rows@[k],
                                out.cells()[k],
                            ) && row_scanned(kind, rows@[k], out.cells()[k]) by {
                                assert(out.cells()[k] == before[k]);
                            }
                        }
                    },
                    Err(e) => {
                        assert(row_may_fail(rows@[i as int]));
                        assert(first_failing_row(rows@, i as int));
                        return Err(e);
                    },
                }
            },
            _ => {
                out.append_null();
                proof {
                    assert forall|k: int| 0 <= k < i implies row_answered(
                        kind,
                        #[trigger] rows@[k],
                        out.cells()[k],
                    ) && row_scanned(kind, rows@[k], out.cells()[k]) by {
                        assert(out.cells()[k] == before[k]);
                    }
                }
            },
        }
        i += 1;
    }
    Ok(out)
}

/// The `yara_matches` scalar: does the data match ANY rule?
pub struct YaraMatches;

/// The `yara_first_rule` scalar: identifier of the first matching rule, or
/// NULL if none match.
pub struct YaraFirstRule;

/// The `yara_match_count` scalar: number of matching rules.
pub struct YaraMatchCount;

impl YaraMatches {
    /// The SQL name of the function.
    pub fn name(&self) -> (r: &'static str)
        ensures
            r@ == "yara_matches"@,
    {
        "yara_matches"
    }

    /// Runs the scalar over a batch of rows.
    pub fn process(&self, rows: &Vec<DataRulesRow>) -> (r: Result<Vec<Option<bool>>, YaraError>)
        ensures
            (exists|i: int| 0 <= i < rows@.len() && row_fails(#[trigger] rows@[i])) ==> r is Err,
            r matches Err(e) ==> batch_error(rows@, e),
            r matches Ok(v) ==> {
                &&& ScalarColumn::Matches(v).cells().len() == rows@.len()
                &&& forall|i: int|
                    0 <= i < rows@.len() ==> row_answered(
                        Kind::Matches,
                        #[trigger] rows@[i],
                        ScalarColumn::Matches(v).cells()[i],
                    )
                &&& forall|i: int|
                    0 <= i < rows@.len() ==> row_scanned(
                        Kind::Matches,
                        #[trigger] rows@[i],
                        ScalarColumn::Matches(v).cells()[i],
                    )
            },
    {
        match process_kind(Kind::Matches, rows) {
            Ok(ScalarColumn::Matches(v)) => Ok(v),
            Ok(_) => {
                proof {
                    assert(false);
                }
                Ok(Vec::new())
            },
            Err(e) => Err(e),
        }
    }
}

impl YaraFirstRule {
    /// The SQL name of the function.
    pub fn name(&self) -> (r: &'static str)
        ensures
            r@ == "yara_first_rule"@,
    {
        "yara_first_rule"
    }

    /// Runs the scalar over a batch of rows.
    pub fn process(&self, rows: &Vec<DataRulesRow>) -> (r: Result<Vec<Option<String>>, YaraError>)
        ensures
            (exists|i: int| 0 <= i < rows@.len() && row_fails(#[trigger] rows@[i])) ==> r is Err,
            r matches Err(e) ==> batch_error(rows@, e),
            r matches Ok(v) ==> {
                &&& ScalarColumn::FirstRule(v).cells().len() == rows@.len()
                &&& forall|i: int|
                    0 <= i < rows@.len() ==> row_answered(
                        Kind::FirstRule,
                        #[trigger] rows@[i],
                        ScalarColumn::FirstRule(v).cells()[i],
                    )
                &&& forall|i: int|
                    0 <= i < rows@.len() ==> row_scanned(
                        Kind::FirstRule,
                        #[trigger] rows@[i],
                        ScalarColumn::FirstRule(v).cells()[i],
                    )
            },
    {
        match process_kind(Kind::FirstRule, rows) {
            Ok(ScalarColumn::FirstRule(v)) => Ok(v),
            Ok(_) => {
                proof {
                    assert(false);
                }
                Ok(Vec::new())
            },
            Err(e) => Err(e),
        }
    }
}

impl YaraMatchCount {
    /// The SQL name of the function.
    pub fn name(&self) -> (r: &'static str)
        ensures
            r@ == "yara_match_count"@,
    {
        "yara_match_count"
    }

    /// Runs the scalar over a batch of rows.
    pub fn process(&self, rows: &Vec<DataRulesRow>) -> (r: Result<Vec<Option<i32>>, YaraError>)
        ensures
            (exists|i: int| 0 <= i < rows@.len() && row_fails(#[trigger] rows@[i])) ==> r is Err,
            r matches Err(e) ==> batch_error(rows@, e),
            r matches Ok(v) ==> {
                &&& ScalarColumn::MatchCount(v).cells().len() == rows@.len()
                &&& forall|i: int|
                    0 <= i < rows@.len() ==> row_answered(
                        Kind::MatchCount,
                        #[trigger] rows@[i],
                        ScalarColumn::MatchCount(v).cells()[i],
                    )
                &&& forall|i: int|
                    0 <= i < rows@.len() ==> row_scanned(
                        Kind::MatchCount,
                        #[trigger] rows@[i],
                        ScalarColumn::MatchCount(v).cells()[i],
                    )
            },
    {
        match process_kind(Kind::MatchCount, rows) {
            Ok(ScalarColumn::MatchCount(v)) => Ok(v),
            Ok(_) => {
                proof {
                    assert(false);
                }
                Ok(Vec::new())
            },
            Err(e) => Err(e),
        }
    }
}

/// The `yara_check` scalar: does a rule source compile?
pub struct YaraCheck;

impl YaraCheck {
    /// The SQL name of the function.
    pub fn name(&self) -> (r: &'static str)
        ensures
            r@ == "yara_check"@,
    {
        "yara_check"
    }

    /// Validates each rule source: `true` if it compiles, `false` if not,
    /// NULL for NULL. Never fails.
    pub fn process(&self, rows: &Vec<Option<String>>) -> (r: Vec<Option<bool>>)
        ensures
            r@.len() == rows@.len(),
            forall|i: int|
                0 <= i < rows@.len() ==> match rows@[i] {
                    Some(src) => #[trigger] r@[i] matches Some(ok) && compile_verdict(src@, ok),
                    None => r@[i] is None,
                },
    {
        let mut out: Vec<Option<bool>> = Vec::new();
        let mut i: usize = 0;
        while i < rows.len()
            invariant
                i <= rows@.len(),
                out@.len() == i,
                forall|k: int|
                    0 <= k < i ==> match rows@[k] {
                        Some(src) => #[trigger] out@[k] matches Some(ok) && compile_verdict(
                            src@,
                            ok,
                        ),
                        None => out@[k] is None,
                    },
            decreases rows.len() - i,
        {
            match &rows[i] {
                Some(src) => out.push(Some(rules_compile(src.as_str()))),
                None => out.push(None),
            }
            i += 1;
        }
        out
    }
}

/// The `yara_version` scalar: the worker's version string.
pub struct YaraVersion;

impl YaraVersion {
    /// The SQL name of the function.
    pub fn name(&self) -> (r: &'static str)
        ensures
            r@ == "yara_version"@,
    {
        "yara_version"
    }

    /// The version string, once per row.
    pub fn process(&self, rows: usize) -> (r: Vec<&'static str>)
        ensures
            r@.len() == rows,
            forall|i: int| 0 <= i < rows ==> (#[trigger] r@[i])@ == "0.1.0"@,
    {
        let mut out: Vec<&'static str> = Vec::new();
        let mut i: usize = 0;
        while i < rows
            invariant
                i <= rows,
                out@.len() == i,
                forall|k: int| 0 <= k < i ==> (#[trigger] out@[k])@ == "0.1.0"@,
            decreases rows - i,
        {
            out.push(version());
            i += 1;
        }
        out
    }
}

/// The Arrow types an input column may have, as far as the functions care.
#[derive(Clone, Copy, PartialEq, Eq)]
pub enum ArgType {
    Binary,
    LargeBinary,
    Utf8,
    LargeUtf8,
    Other,
}

/// Whether a `data` argument (BLOB or VARCHAR) may have this type.
pub fn accepts_blob(t: ArgType) -> (r: bool)
    ensures
        r == (t != ArgType::Other),
{
    match t {
        ArgType::Other => false,
        _ => true,
    }
}

/// Whether a `rules` argument (VARCHAR) may have this type.
pub fn accepts_text(t: ArgType) -> (r: bool)
    ensures
        r == (t == ArgType::Utf8 || t == ArgType::LargeUtf8),
{
    match t {
        ArgType::Utf8 | ArgType::LargeUtf8 => true,
        _ => false,
    }
}

} // verus!
