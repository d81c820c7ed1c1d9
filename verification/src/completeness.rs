//! Completeness validation of an S.DEF analysis: the pass/fail verdict and
//! the warnings of each layer, decided on the counts the database gives.
//! (The layer scores are ratios, computed by the caller.)

use vstd::prelude::*;
use crate::text::{decimal, string_views, usize_to_string};

verus! {

/// Whether a layer passed, and its warnings in order.
#[derive(Debug, Clone)]
pub struct LayerVerdict {
    pub passed: bool,
    pub warnings: Vec<String>,
}

/// `w` when `cond` holds, else nothing.
pub open spec fn warn_if(cond: bool, w: Seq<char>) -> Seq<Seq<char>> {
    if cond { seq![w] } else { Seq::empty() }
}

fn push_count_warning(warnings: &mut Vec<String>, n: usize, text: &str)
    ensures
        string_views(final(warnings)@) == string_views(old(warnings)@).push(decimal(n as nat) + text@),
{
    let mut w = usize_to_string(n);
    crate::text::push_str(&mut w, text);
    warnings.push(w);
    assert(string_views(warnings@) =~= string_views(old(warnings)@).push(w@));
}

fn push_warning(warnings: &mut Vec<String>, text: &str)
    ensures
        string_views(final(warnings)@) == string_views(old(warnings)@).push(text@),
{
    warnings.push(text.to_owned());
    assert(string_views(warnings@) =~= string_views(old(warnings)@).push(text@));
}

/// File coverage warnings: the failed tasks, then the pending ones, each
/// when there are any.
pub fn file_coverage_warnings(failed: usize, pending: usize) -> (w: Vec<String>)
    ensures
        string_views(w@) == warn_if(failed > 0, decimal(failed as nat) + " tasks failed analysis"@) + warn_if(
            pending > 0,
            decimal(pending as nat) + " tasks still pending"@,
        ),
{
    let mut w: Vec<String> = Vec::new();
    if failed > 0 {
        push_count_warning(&mut w, failed, " tasks failed analysis");
    }
    let ghost mid = string_views(w@);
    if pending > 0 {
        push_count_warning(&mut w, pending, " tasks still pending");
    }
    assert(string_views(w@) =~= warn_if(failed > 0, decimal(failed as nat) + " tasks failed analysis"@) + warn_if(
        pending > 0,
        decimal(pending as nat) + " tasks still pending"@,
    ));
    w
}

/// Dependency integrity: passes with no dangling symbol and at least one
/// data model; dangling symbols are warned of.
pub fn dependency_verdict(dangling: usize, models: usize) -> (v: LayerVerdict)
    ensures
        v.passed == (dangling == 0 && models > 0),
        string_views(v.warnings@) == warn_if(dangling > 0, decimal(dangling as nat) + " symbols with no matching data model"@),
{
    let mut w: Vec<String> = Vec::new();
    if dangling > 0 {
        push_count_warning(&mut w, dangling, " symbols with no matching data model");
    }
    assert(string_views(w@) =~= warn_if(dangling > 0, decimal(dangling as nat) + " symbols with no matching data model"@));
    LayerVerdict { passed: dangling == 0 && models > 0, warnings: w }
}

/// Interface coverage: passes when there are no contracts or some
/// methods; contracts without methods are warned of.
pub fn interface_verdict(contracts: usize, methods: usize) -> (v: LayerVerdict)
    ensures
        v.passed == (contracts == 0 || methods > 0),
        string_views(v.warnings@) == warn_if(contracts > 0 && methods == 0, "Contracts exist but no methods defined"@),
{
    let mut w: Vec<String> = Vec::new();
    if contracts > 0 && methods == 0 {
        push_warning(&mut w, "Contracts exist but no methods defined");
    }
    assert(string_views(w@) =~= warn_if(contracts > 0 && methods == 0, "Contracts exist but no methods defined"@));
    LayerVerdict { passed: contracts == 0 || methods > 0, warnings: w }
}

/// Entity coverage: passes with data models whose attributes all carry a
/// type; models without attributes, and untyped attributes, are warned of.
pub fn entity_verdict(models: usize, attributes: usize, typed: usize) -> (v: LayerVerdict)
    ensures
        v.passed == (models > 0 && attributes > 0 && typed == attributes),
        string_views(v.warnings@) == warn_if(models > 0 && attributes == 0, "Data models exist but no attributes defined"@)
            + warn_if(
            typed < attributes,
            decimal((attributes - typed) as nat) + " attributes missing type information"@,
        ),
{
    let mut w: Vec<String> = Vec::new();
    if models > 0 && attributes == 0 {
        push_warning(&mut w, "Data models exist but no attributes defined");
    }
    if typed < attributes {
        push_count_warning(&mut w, attributes - typed, " attributes missing type information");
    }
    assert(string_views(w@) =~= warn_if(models > 0 && attributes == 0, "Data models exist but no attributes defined"@)
        + warn_if(typed < attributes, decimal((attributes - typed) as nat) + " attributes missing type information"@));
    LayerVerdict { passed: models > 0 && attributes > 0 && typed == attributes, warnings: w }
}

/// Cross validation: functions without logic, and functions with no
/// function symbol registered, are warned of; it passes without warnings.
pub fn cross_verdict(functions: usize, with_logic: usize, function_symbols: bool) -> (v: LayerVerdict)
    ensures
        string_views(v.warnings@) == warn_if(
            functions > 0 && with_logic < functions,
            decimal((functions - with_logic) as nat) + " functions without logic/behavior description"@,
        ) + warn_if(functions > 0 && !function_symbols, "Functions exist but no function symbols registered"@),
        v.passed == (v.warnings@.len() == 0),
{
    let mut w: Vec<String> = Vec::new();
    if functions > 0 && with_logic < functions {
        push_count_warning(&mut w, functions - with_logic, " functions without logic/behavior description");
    }
    if functions > 0 && !function_symbols {
        push_warning(&mut w, "Functions exist but no function symbols registered");
    }
    assert(string_views(w@) =~= warn_if(
        functions > 0 && with_logic < functions,
        decimal((functions - with_logic) as nat) + " functions without logic/behavior description"@,
    ) + warn_if(functions > 0 && !function_symbols, "Functions exist but no function symbols registered"@));
    let passed = w.len() == 0;
    LayerVerdict { passed, warnings: w }
}

} // verus!
