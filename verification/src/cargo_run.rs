//! Which executable `run` runs: the one binary of the packages, or the one
//! target the selection flags name.
use vstd::prelude::*;
use crate::text::strs;

verus! {

/// A target of the packages as the choice reads it: its package (by
/// position), its name, its kind (library, build script, binary, library
/// example), and whether the selection flags name it for running.
#[derive(Debug)]
pub struct RunCandidate {
    pub pkg: usize,
    pub name: String,
    pub is_lib: bool,
    pub is_custom_build: bool,
    pub is_bin: bool,
    pub is_example_lib: bool,
    pub selected: bool,
}

/// Why nothing can be run.
#[derive(Debug, PartialEq, Eq)]
pub enum RunError {
    /// No binary, and no flag names a target.
    NoBinary,
    /// The one target named is an example built as a library.
    ExampleIsLibrary(String),
    /// Several binaries and no flag: the names, and whether nightly
    /// features (the `default-run` key) are allowed.
    CannotDetermine { names: Vec<String>, nightly: bool },
    /// Flags name several executables.
    MultipleSpecified,
}

/// Whether the target could be run: not a library or build script, and a
/// binary when no flag names targets, or one the flags name.
pub open spec fn runnable(c: RunCandidate, specific: bool) -> bool {
    !c.is_lib && !c.is_custom_build && if !specific {
        c.is_bin
    } else {
        c.selected
    }
}

/// The positions of the runnable targets among the first `n`.
pub open spec fn runnable_upto(cs: Seq<RunCandidate>, specific: bool, n: nat) -> Seq<int>
    decreases n,
{
    if n == 0 {
        Seq::empty()
    } else if runnable(cs[n - 1], specific) {
        runnable_upto(cs, specific, (n - 1) as nat).push(n - 1)
    } else {
        runnable_upto(cs, specific, (n - 1) as nat)
    }
}

/// What `run` decides, by target position.
#[derive(Debug, Clone, Copy, PartialEq, Eq, Structural)]
pub enum RunDecision {
    /// Run the target at this position.
    Run(usize),
    /// Flags name targets and none is runnable: the compilation checks
    /// the flags.
    LeaveToCompilation,
    /// No binary and no flag.
    NoBinary,
    /// The one target named, at this position, is a library example.
    ExampleIsLibrary(usize),
    /// Several binaries and no flag.
    CannotDetermine,
    /// Flags name several executables.
    MultipleSpecified,
}

/// What `run` decides from its targets: with one runnable target, that
/// one (unless it is a library example); with none, an error without
/// flags, or nothing to decide (the compilation checks the flags); with
/// several, an error.
pub open spec fn run_choice(cs: Seq<RunCandidate>, specific: bool) -> RunDecision {
    let bins = runnable_upto(cs, specific, cs.len());
    if bins.len() == 0 {
        if !specific {
            RunDecision::NoBinary
        } else {
            RunDecision::LeaveToCompilation
        }
    } else if bins.len() == 1 {
        if cs[bins[0]].is_example_lib {
            RunDecision::ExampleIsLibrary(bins[0] as usize)
        } else {
            RunDecision::Run(bins[0] as usize)
        }
    } else if !specific {
        RunDecision::CannotDetermine
    } else {
        RunDecision::MultipleSpecified
    }
}

/// Runnable positions are in range.
proof fn lemma_runnable_in_range(cs: Seq<RunCandidate>, specific: bool, n: nat)
    requires
        n <= cs.len(),
    ensures
        forall|k: int| 0 <= k < runnable_upto(cs, specific, n).len() ==> 0 <= #[trigger] runnable_upto(cs, specific, n)[k] < n,
    decreases n,
{
    if n > 0 {
        let m = (n - 1) as nat;
        lemma_runnable_in_range(cs, specific, m);
        let prev = runnable_upto(cs, specific, m);
        let cur = runnable_upto(cs, specific, n);
        assert forall|k: int| 0 <= k < cur.len() implies 0 <= #[trigger] cur[k] < n by {
            if k < prev.len() {
                assert(cur[k] == prev[k]);
            }
        }
    }
}

/// Chooses the target `run` runs (see `run_choice`): its position, or
/// `None` when flags name targets and none is runnable, leaving the check
/// to the compilation. Without flags, several binaries are an error that
/// names them all.
pub fn choose_run_target(cs: &Vec<RunCandidate>, specific: bool, nightly: bool) -> (r: Result<Option<usize>, RunError>)
    ensures
        match run_choice(cs@, specific) {
            RunDecision::Run(i) => r == Ok::<Option<usize>, RunError>(Some(i)),
            RunDecision::LeaveToCompilation => r == Ok::<Option<usize>, RunError>(None),
            RunDecision::NoBinary => r == Err::<Option<usize>, RunError>(RunError::NoBinary),
            RunDecision::ExampleIsLibrary(i) => r matches Err(RunError::ExampleIsLibrary(m)) && m@ == cs@[i as int].name@,
            RunDecision::CannotDetermine => r matches Err(RunError::CannotDetermine { names, nightly: ng }) && ng
                == nightly && strs(names@) == runnable_upto(cs@, specific, cs@.len()).map_values(|k: int| cs@[k].name@),
            RunDecision::MultipleSpecified => r == Err::<Option<usize>, RunError>(RunError::MultipleSpecified),
        },
{
    let ghost all = runnable_upto(cs@, specific, cs@.len());
    let mut idx: Vec<usize> = Vec::new();
    let mut names: Vec<String> = Vec::new();
    let mut i: usize = 0;
    while i < cs.len()
        invariant
            i <= cs@.len(),
            idx@.len() == runnable_upto(cs@, specific, i as nat).len(),
            forall|k: int| 0 <= k < idx@.len() ==> idx@[k] as int == #[trigger] runnable_upto(cs@, specific, i as nat)[k],
            strs(names@) == runnable_upto(cs@, specific, i as nat).map_values(|k: int| cs@[k].name@),
        decreases cs.len() - i,
    {
        proof {
            lemma_runnable_in_range(cs@, specific, i as nat);
        }
        let c = &cs[i];
        let ok = !c.is_lib && !c.is_custom_build && if !specific {
            c.is_bin
        } else {
            c.selected
        };
        if ok {
            let ghost before = strs(names@);
            idx.push(i);
            names.push(c.name.clone());
            assert(strs(names@) =~= before.push(c.name@));
            assert(runnable_upto(cs@, specific, (i + 1) as nat).map_values(|k: int| cs@[k].name@) =~= runnable_upto(
                cs@,
                specific,
                i as nat,
            ).map_values(|k: int| cs@[k].name@).push(cs@[i as int].name@));
        }
        i = i + 1;
    }
    proof {
        lemma_runnable_in_range(cs@, specific, cs@.len());
    }
    if idx.len() == 0 {
        if !specific {
            return Err(RunError::NoBinary);
        }
        return Ok(None);
    }
    if idx.len() == 1 {
        let only = idx[0];
        if cs[only].is_example_lib {
            return Err(RunError::ExampleIsLibrary(cs[only].name.clone()));
        }
        return Ok(Some(only));
    }
    if !specific {
        Err(RunError::CannotDetermine { names, nightly })
    } else {
        Err(RunError::MultipleSpecified)
    }
}

} // verus!
