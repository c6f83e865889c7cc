//! The decision layer: mode selection, normalization of prompted
//! input, the pure middle of the pipeline from listing to plan, and
//! the confirmation gate.  The caller performs the prompts, reads
//! and renames these decisions ask for.

use vstd::prelude::*;
use crate::listing::views;
use crate::matching::{
    compile_pattern, glob_ok, match_names, matched_spec, pattern_error_message, pattern_source,
};
use crate::plan::{build_plan, plan_spec, plan_views, PlanEntry};

verus! {

/// The ways a run can fail before any rename is attempted.
pub enum RenameError {
    /// The target path does not exist or is not a directory.
    InvalidTarget(String),
    /// The directory or an entry's metadata could not be read.
    ListingIo(String),
    /// The glob pattern is malformed; the payload describes how.
    PatternSyntax(String),
}

/// How the pattern and the substitution rule are obtained.
pub enum Mode {
    /// Pattern, search string and replacement, all supplied up front.
    NonInteractive(String, String, String),
    /// Prompt for the whole triple.
    Interactive,
}

/// Decides the mode: non-interactive exactly when the pattern and
/// both substitution strings were all supplied.  A partial supply
/// falls back to prompting for the whole triple, not just the
/// missing pieces.
pub fn select_mode(pattern: Option<String>, from: Option<String>, to: Option<String>) -> (m: Mode)
    ensures
        m is NonInteractive <==> (pattern is Some && from is Some && to is Some),
        m matches Mode::NonInteractive(p, f, t) ==> (pattern matches Some(p0) && p == p0) && (
        from matches Some(f0) && f == f0) && (to matches Some(t0) && t == t0),
{
    match (pattern, from, to) {
        (Some(p), Some(f), Some(t)) => Mode::NonInteractive(p, f, t),
        _ => Mode::Interactive,
    }
}

/// The text of a line with leading and trailing whitespace removed.
pub uninterp spec fn trim_of(s: Seq<char>) -> Seq<char>;

/// Relies on `str::trim`: the trimmed text is a function of the line
/// alone.
#[verifier::external_body]
fn trim_line(s: &str) -> (r: String)
    ensures
        r@ == trim_of(s@),
{
    s.trim().to_string()
}

/// The lower-case folding of a string, as Unicode defines it.
pub uninterp spec fn lower_of(s: Seq<char>) -> Seq<char>;

/// Relies on `str::to_lowercase`: the folding depends on the
/// characters alone.
#[verifier::external_body]
fn lowercase(s: &str) -> (r: String)
    ensures
        r@ == lower_of(s@),
{
    s.to_lowercase()
}

/// Normalizes a prompted line that must not stay empty: the trimmed
/// text, or `None` — the operation is cancelled — when nothing is
/// left after trimming.
pub fn required_input(line: &str) -> (r: Option<String>)
    ensures
        r is Some <==> trim_of(line@).len() != 0,
        r matches Some(s) ==> s@ == trim_of(line@),
{
    let t = trim_line(line);
    if t.as_str().is_empty() {
        None
    } else {
        Some(t)
    }
}

/// Normalizes a prompted line that may stay empty — an empty
/// replacement deletes the occurrences of the search string.
pub fn optional_input(line: &str) -> (r: String)
    ensures
        r@ == trim_of(line@),
{
    trim_line(line)
}

/// What the pipeline decided once listing, pattern and rule are known.
pub enum Prepared {
    /// The pattern did not compile; the payload describes how.
    BadPattern(String),
    /// No name of the listing matches the pattern.
    NoMatches,
    /// Names match, but the rule changes none of them.
    NothingToRename,
    /// The plan, to be shown and confirmed before it is applied.
    AwaitConfirmation(Vec<PlanEntry>),
    /// The plan, to be shown and applied with no prompt: the caller
    /// asked to skip confirmation.
    Proceed(Vec<PlanEntry>),
}

/// Runs the pure middle of the pipeline: compiles the pattern,
/// filters the listing, derives the plan, and decides whether a
/// confirmation prompt is owed.
///
/// An empty plan never reaches confirmation or execution: with no
/// matching name, or with a plan emptied by the no-op filter, the
/// run stops with a report and the filesystem stays untouched.
pub fn prepare(
    files: &Vec<String>,
    pattern_str: &str,
    from: &str,
    to: &str,
    skip_confirm: bool,
) -> (r: Prepared)
    ensures
        ({
            let matched = matched_spec(views(files@), pattern_str@);
            let plan = plan_spec(matched, from@, to@);
            &&& (r is BadPattern <==> !glob_ok(pattern_str@))
            &&& (r is NoMatches <==> glob_ok(pattern_str@) && matched.len() == 0)
            &&& (r is NothingToRename <==> glob_ok(pattern_str@) && matched.len() > 0
                && plan.len() == 0)
            &&& (r is Proceed <==> glob_ok(pattern_str@) && plan.len() > 0 && skip_confirm)
            &&& (r is AwaitConfirmation <==> glob_ok(pattern_str@) && plan.len() > 0
                && !skip_confirm)
            &&& (r matches Prepared::Proceed(entries) ==> plan_views(entries@) == plan)
            &&& (r matches Prepared::AwaitConfirmation(entries) ==> plan_views(entries@) == plan)
        }),
{
    let pat = match compile_pattern(pattern_str) {
        Ok(p) => p,
        Err(e) => {
            let msg = pattern_error_message(&e);
            return Prepared::BadPattern(msg);
        },
    };
    let matched = match_names(&pat, files);
    if matched.len() == 0 {
        return Prepared::NoMatches;
    }
    let plan = build_plan(&matched, from, to);
    if plan.len() == 0 {
        return Prepared::NothingToRename;
    }
    if skip_confirm {
        Prepared::Proceed(plan)
    } else {
        Prepared::AwaitConfirmation(plan)
    }
}

/// Decides a confirmation answer: proceed exactly when the trimmed,
/// lower-cased line is the single letter "y"; anything else — an
/// empty line included — aborts.
pub fn confirm_decision(answer: &str) -> (r: bool)
    ensures
        r == (lower_of(trim_of(answer@)) == "y"@),
{
    let t = trim_line(answer);
    let l = lowercase(t.as_str());
    let y = String::from_str("y");
    l == y
}

} // verus!
