//! The kind of work a compilation unit does.
use vstd::prelude::*;

verus! {

/// What a unit of compilation produces.
#[derive(Clone, Copy, Debug, PartialEq, Eq, Structural, Hash)]
pub enum CompileMode {
    /// A test harness.
    Test,
    /// A plain build.
    Build,
    /// A `cargo check`, of the test harness when `test` is set.
    Check { test: bool },
    /// A benchmark harness.
    Bench,
    /// Documentation, of the dependencies too when `deps` is set.
    Doc { deps: bool },
    /// Documentation tests.
    Doctest,
    /// Scraping of examples for documentation.
    Docscrape,
    /// Running a build script.
    RunCustomBuild,
}

/// Whether the mode builds a test of some kind.
pub open spec fn any_test(m: CompileMode) -> bool {
    match m {
        CompileMode::Test | CompileMode::Bench | CompileMode::Doctest => true,
        CompileMode::Check { test } => test,
        _ => false,
    }
}

impl CompileMode {
    /// Whether the mode builds a test of some kind: tests, benchmarks,
    /// doc tests and checks of test harnesses.
    pub fn is_any_test(&self) -> (r: bool)
        ensures
            r == any_test(*self),
    {
        match self {
            CompileMode::Test | CompileMode::Bench | CompileMode::Doctest => true,
            CompileMode::Check { test } => *test,
            _ => false,
        }
    }

    /// Whether the mode produces documentation.
    pub fn is_doc(&self) -> (r: bool)
        ensures
            r == (*self is Doc),
    {
        match self {
            CompileMode::Doc { .. } => true,
            _ => false,
        }
    }

    /// Whether the mode is a check.
    pub fn is_check(&self) -> (r: bool)
        ensures
            r == (*self is Check),
    {
        match self {
            CompileMode::Check { .. } => true,
            _ => false,
        }
    }
}

} // verus!
