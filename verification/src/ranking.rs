//! The orders by which a report ranks its functions.
use vstd::prelude::*;
use crate::metrics::{FunctionMetrics, churn_ratio};
use crate::sort::Ranked;
use crate::text::{compare_text, lemma_text_order_laws, str_eq, text_order};

verus! {

/// The metric by which functions are ranked.
#[derive(Debug, Clone, Copy, PartialEq, Eq, Structural)]
pub enum SortField {
    ChurnScore,
    CyclomaticComplexity,
    TimesModified,
    NestingDepth,
    LinesOfCode,
}

/// The metric that a sort name selects, if it names one.
pub open spec fn sort_field_named(name: Seq<char>) -> Option<SortField> {
    if name == "churn_score"@ {
        Some(SortField::ChurnScore)
    } else if name == "cyclomatic_complexity"@ {
        Some(SortField::CyclomaticComplexity)
    } else if name == "times_modified"@ {
        Some(SortField::TimesModified)
    } else if name == "nesting_depth"@ {
        Some(SortField::NestingDepth)
    } else if name == "lines_of_code"@ {
        Some(SortField::LinesOfCode)
    } else {
        None
    }
}

/// The metric that `name` selects, if it names one.
pub fn sort_field_from_name(name: &str) -> (r: Option<SortField>)
    ensures
        r == sort_field_named(name@),
{
    if str_eq(name, "churn_score") {
        Some(SortField::ChurnScore)
    } else if str_eq(name, "cyclomatic_complexity") {
        Some(SortField::CyclomaticComplexity)
    } else if str_eq(name, "times_modified") {
        Some(SortField::TimesModified)
    } else if str_eq(name, "nesting_depth") {
        Some(SortField::NestingDepth)
    } else if str_eq(name, "lines_of_code") {
        Some(SortField::LinesOfCode)
    } else {
        None
    }
}

/// Whether the churn score of `a` is at most that of `b`, the fractions
/// compared exactly.
pub open spec fn churn_le(a: FunctionMetrics, b: FunctionMetrics) -> bool {
    let (na, da) = churn_ratio(a.times_modified, a.bug_fix_commits, a.authors_count);
    let (nb, db) = churn_ratio(b.times_modified, b.bug_fix_commits, b.authors_count);
    na * db <= nb * da
}

proof fn lemma_fraction_le_transitive(na: int, da: int, nb: int, db: int, nc: int, dc: int)
    requires
        da > 0,
        db > 0,
        dc > 0,
        na * db <= nb * da,
        nb * dc <= nc * db,
    ensures
        na * dc <= nc * da,
{
    assert(na * db * dc <= nb * da * dc) by (nonlinear_arith)
        requires na * db <= nb * da, dc > 0;
    assert(nb * dc * da <= nc * db * da) by (nonlinear_arith)
        requires nb * dc <= nc * db, da > 0;
    assert(db * (na * dc) <= db * (nc * da)) by (nonlinear_arith)
        requires na * db * dc <= nb * da * dc, nb * dc * da <= nc * db * da;
    assert(na * dc <= nc * da) by (nonlinear_arith)
        requires db * (na * dc) <= db * (nc * da), db > 0;
}

proof fn lemma_churn_ratio_positive(f: FunctionMetrics)
    ensures
        churn_ratio(f.times_modified, f.bug_fix_commits, f.authors_count).1 > 0,
        churn_ratio(f.times_modified, f.bug_fix_commits, f.authors_count).0 >= 0,
        churn_ratio(f.times_modified, f.bug_fix_commits, f.authors_count).0 < u128::MAX,
        churn_ratio(f.times_modified, f.bug_fix_commits, f.authors_count).1 <= u64::MAX,
{
    assert(f.times_modified * f.bug_fix_commits >= 0) by (nonlinear_arith)
        requires f.times_modified >= 0, f.bug_fix_commits >= 0;
    assert(f.times_modified * f.bug_fix_commits <= 0xffff_ffff_ffff_ffff * 0xffff_ffff_ffff_ffff) by (nonlinear_arith)
        requires f.times_modified <= 0xffff_ffff_ffff_ffff, f.bug_fix_commits <= 0xffff_ffff_ffff_ffff;
}

/// The product `n * d` as a high part and a low 64-bit part.
fn wide_mul(n: u128, d: u64) -> (r: (u128, u64))
    ensures
        r.0 * 0x1_0000_0000_0000_0000 + r.1 == n * d,
{
    let nh: u128 = n / 0x1_0000_0000_0000_0000;
    let nl: u128 = n % 0x1_0000_0000_0000_0000;
    assert(n == nh * 0x1_0000_0000_0000_0000 + nl) by (nonlinear_arith)
        requires nh == n / 0x1_0000_0000_0000_0000, nl == n % 0x1_0000_0000_0000_0000;
    assert(nh < 0x1_0000_0000_0000_0000) by (nonlinear_arith)
        requires nh == n / 0x1_0000_0000_0000_0000, n <= u128::MAX;
    assert(nl * d <= 0xffff_ffff_ffff_ffff * 0xffff_ffff_ffff_ffff) by (nonlinear_arith)
        requires nl < 0x1_0000_0000_0000_0000, d <= 0xffff_ffff_ffff_ffff;
    let p: u128 = nl * (d as u128);
    let ph: u128 = p / 0x1_0000_0000_0000_0000;
    let pl: u128 = p % 0x1_0000_0000_0000_0000;
    assert(p == ph * 0x1_0000_0000_0000_0000 + pl) by (nonlinear_arith)
        requires ph == p / 0x1_0000_0000_0000_0000, pl == p % 0x1_0000_0000_0000_0000;
    assert(ph < 0x1_0000_0000_0000_0000) by (nonlinear_arith)
        requires ph == p / 0x1_0000_0000_0000_0000, p <= u128::MAX;
    assert(nh * d <= 0xffff_ffff_ffff_ffff * 0xffff_ffff_ffff_ffff) by (nonlinear_arith)
        requires nh < 0x1_0000_0000_0000_0000, d <= 0xffff_ffff_ffff_ffff;
    let hi: u128 = nh * (d as u128) + ph;
    assert(hi * 0x1_0000_0000_0000_0000 + pl == n * d) by (nonlinear_arith)
        requires
            hi == nh * d + ph,
            n == nh * 0x1_0000_0000_0000_0000 + nl,
            nl * d == ph * 0x1_0000_0000_0000_0000 + pl,
    ;
    (hi, pl as u64)
}

/// Whether `na / da` exceeds `nb / db`, compared exactly.
fn fraction_above(na: u128, da: u64, nb: u128, db: u64) -> (r: bool)
    ensures
        r == (na * db > nb * da),
{
    let (h1, l1) = wide_mul(na, db);
    let (h2, l2) = wide_mul(nb, da);
    let r = h1 > h2 || (h1 == h2 && l1 > l2);
    proof {
        if h1 > h2 {
            assert(h1 * 0x1_0000_0000_0000_0000 + l1 > h2 * 0x1_0000_0000_0000_0000 + l2) by (nonlinear_arith)
                requires h1 > h2, l1 >= 0, l2 < 0x1_0000_0000_0000_0000;
        } else if h1 < h2 {
            assert(h2 * 0x1_0000_0000_0000_0000 + l2 > h1 * 0x1_0000_0000_0000_0000 + l1) by (nonlinear_arith)
                requires h2 > h1, l2 >= 0, l1 < 0x1_0000_0000_0000_0000;
        }
    }
    r
}

/// Whether `a` ranks at most as high as `b` by the metric `order` alone.
pub open spec fn key_le(order: SortField, a: FunctionMetrics, b: FunctionMetrics) -> bool {
    match order {
        SortField::ChurnScore => churn_le(a, b),
        SortField::CyclomaticComplexity => a.cyclomatic_complexity <= b.cyclomatic_complexity,
        SortField::TimesModified => a.times_modified <= b.times_modified,
        SortField::NestingDepth => a.nesting_depth <= b.nesting_depth,
        SortField::LinesOfCode => a.lines_of_code <= b.lines_of_code,
    }
}

/// The order among functions of equal rank: by file, then by name, then by
/// line, each ascending (-1 where `a` comes first, 0 where all three agree,
/// 1 where `b` comes first).
pub open spec fn tie_order(a: FunctionMetrics, b: FunctionMetrics) -> int {
    let by_file = text_order(a.file@, b.file@);
    let by_name = text_order(a.name@, b.name@);
    if by_file != 0 {
        by_file
    } else if by_name != 0 {
        by_name
    } else if a.line < b.line {
        -1
    } else if a.line > b.line {
        1
    } else {
        0
    }
}

proof fn lemma_tie_order_laws(a: FunctionMetrics, b: FunctionMetrics, c: FunctionMetrics)
    ensures
        tie_order(a, b) == -tie_order(b, a),
        tie_order(a, b) <= 0 && tie_order(b, c) <= 0 ==> tie_order(a, c) <= 0,
{
    lemma_text_order_laws(a.file@, b.file@, c.file@);
    lemma_text_order_laws(b.file@, c.file@, a.file@);
    lemma_text_order_laws(a.file@, c.file@, b.file@);
    lemma_text_order_laws(a.name@, b.name@, c.name@);
    lemma_text_order_laws(b.name@, c.name@, a.name@);
    lemma_text_order_laws(a.name@, c.name@, b.name@);
}

fn key_above(order: &SortField, a: &FunctionMetrics, b: &FunctionMetrics) -> (r: bool)
    ensures
        r == !key_le(*order, *a, *b),
{
    match order {
        SortField::ChurnScore => {
            proof {
                lemma_churn_ratio_positive(*a);
                lemma_churn_ratio_positive(*b);
            }
            let (na, da) = a.churn_score();
            let (nb, db) = b.churn_score();
            fraction_above(na, da as u64, nb, db as u64)
        },
        SortField::CyclomaticComplexity => a.cyclomatic_complexity > b.cyclomatic_complexity,
        SortField::TimesModified => a.times_modified > b.times_modified,
        SortField::NestingDepth => a.nesting_depth > b.nesting_depth,
        SortField::LinesOfCode => a.lines_of_code > b.lines_of_code,
    }
}

fn tie_compare(a: &FunctionMetrics, b: &FunctionMetrics) -> (r: i8)
    ensures
        r == tie_order(*a, *b),
{
    let by_file = compare_text(a.file.as_str(), b.file.as_str());
    if by_file != 0 {
        return by_file;
    }
    let by_name = compare_text(a.name.as_str(), b.name.as_str());
    if by_name != 0 {
        by_name
    } else if a.line < b.line {
        -1
    } else if a.line > b.line {
        1
    } else {
        0
    }
}

/// Functions rank by the metric, from the highest value down; functions with
/// equal values by file, name and line, ascending.
impl Ranked for FunctionMetrics {
    type Order = SortField;

    open spec fn rank_le(order: SortField, a: FunctionMetrics, b: FunctionMetrics) -> bool {
        key_le(order, a, b) && (key_le(order, b, a) ==> tie_order(b, a) <= 0)
    }

    proof fn lemma_rank_le_transitive(order: SortField, a: FunctionMetrics, b: FunctionMetrics, c: FunctionMetrics) {
        lemma_key_le_transitive(order, a, b, c);
        lemma_key_le_transitive(order, c, a, b);
        lemma_key_le_transitive(order, b, c, a);
        lemma_tie_order_laws(c, b, a);
    }

    proof fn lemma_rank_le_total(order: SortField, a: FunctionMetrics, b: FunctionMetrics) {
        lemma_tie_order_laws(a, b, a);
    }

    fn ranks_above(order: &SortField, a: &FunctionMetrics, b: &FunctionMetrics) -> (r: bool) {
        if key_above(order, a, b) {
            true
        } else if key_above(order, b, a) {
            false
        } else {
            tie_compare(b, a) > 0
        }
    }
}

proof fn lemma_key_le_transitive(order: SortField, a: FunctionMetrics, b: FunctionMetrics, c: FunctionMetrics)
    ensures
        key_le(order, a, b) && key_le(order, b, c) ==> key_le(order, a, c),
{
    if order == SortField::ChurnScore && key_le(order, a, b) && key_le(order, b, c) {
        lemma_churn_ratio_positive(a);
        lemma_churn_ratio_positive(b);
        lemma_churn_ratio_positive(c);
        let (na, da) = churn_ratio(a.times_modified, a.bug_fix_commits, a.authors_count);
        let (nb, db) = churn_ratio(b.times_modified, b.bug_fix_commits, b.authors_count);
        let (nc, dc) = churn_ratio(c.times_modified, c.bug_fix_commits, c.authors_count);
        lemma_fraction_le_transitive(na, da, nb, db, nc, dc);
    }
}

} // verus!
