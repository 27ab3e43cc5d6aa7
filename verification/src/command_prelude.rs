//! The decisions behind the common command-line options: the message
//! format, the profile name, the timing outputs, numbers, and the flags
//! that need unstable options.
use vstd::prelude::*;
use crate::cargo_compile::{is_glob_pattern, is_glob_spec};
use crate::text::{chars_of, string_from, string_of, strs};
use crate::url::{seqs_view, split_all, split_all_chars};

verus! {

/// How compiler messages are shown.
#[derive(Clone, Copy, Debug, PartialEq, Eq, Structural)]
pub enum MessageFormat {
    Human,
    Short,
    Json { short: bool, ansi: bool, render_diagnostics: bool },
}

/// An error in the command-line options.
#[derive(Debug)]
pub enum CliError {
    /// Two kinds of `--message-format` were given.
    TwoMessageFormats,
    /// An unknown `--message-format` specifier.
    InvalidMessageFormat(String),
    /// An unknown `--timings` output.
    InvalidTimings(String),
    /// A flag that needs `-Z unstable-options`, and its tracking issue.
    Unstable { flag: String, issue: u32 },
    /// `--profile` given with a flag that means another profile.
    ProfileConflict { flag: String, equiv: String, specified: String },
    /// `--profile doc`, which is reserved.
    DocProfileReserved,
    /// A value that is not a number.
    InvalidNumber(String),
    /// Glob patterns in `--package` where they are not supported.
    GlobPackages,
}

/// The mathematical value of a `CliError`.
pub enum CliErrorView {
    TwoMessageFormats,
    InvalidMessageFormat(Seq<char>),
    InvalidTimings(Seq<char>),
    Unstable(Seq<char>, u32),
    ProfileConflict(Seq<char>, Seq<char>, Seq<char>),
    DocProfileReserved,
    InvalidNumber(Seq<char>),
    GlobPackages,
}

impl View for CliError {
    type V = CliErrorView;

    open spec fn view(&self) -> CliErrorView {
        match self {
            CliError::TwoMessageFormats => CliErrorView::TwoMessageFormats,
            CliError::InvalidMessageFormat(s) => CliErrorView::InvalidMessageFormat(s@),
            CliError::InvalidTimings(s) => CliErrorView::InvalidTimings(s@),
            CliError::Unstable { flag, issue } => CliErrorView::Unstable(flag@, *issue),
            CliError::ProfileConflict { flag, equiv, specified } => CliErrorView::ProfileConflict(
                flag@,
                equiv@,
                specified@,
            ),
            CliError::DocProfileReserved => CliErrorView::DocProfileReserved,
            CliError::InvalidNumber(s) => CliErrorView::InvalidNumber(s@),
            CliError::GlobPackages => CliErrorView::GlobPackages,
        }
    }
}

/// `s` with ASCII upper-case letters made lower-case.
pub open spec fn ascii_lower(s: Seq<char>) -> Seq<char> {
    s.map_values(
        |c: char|
            if 'A' <= c && c <= 'Z' {
                ((c as u32) + 32) as char
            } else {
                c
            },
    )
}

/// `s` with ASCII upper-case letters made lower-case.
fn ascii_lower_chars(v: &Vec<char>) -> (r: Vec<char>)
    ensures
        r@ == ascii_lower(v@),
{
    let mut out: Vec<char> = Vec::new();
    let mut i: usize = 0;
    while i < v.len()
        invariant
            i <= v@.len(),
            out@ == ascii_lower(v@.take(i as int)),
        decreases v.len() - i,
    {
        let c = v[i];
        let l = if 'A' <= c && c <= 'Z' {
            ((c as u8) + 32) as char
        } else {
            c
        };
        out.push(l);
        i = i + 1;
        assert(out@ =~= ascii_lower(v@.take(i as int)));
    }
    assert(v@.take(v@.len() as int) =~= v@);
    out
}

/// The JSON format with every option off.
pub open spec fn default_json() -> MessageFormat {
    MessageFormat::Json { short: false, ansi: false, render_diagnostics: false }
}

/// One `--message-format` specifier applied to the format chosen so far:
/// `json`, `human` and `short` choose a format (once); the `json-...`
/// specifiers turn on an option of the JSON format, choosing it if nothing
/// was chosen yet.
pub open spec fn mf_step(cur: Option<MessageFormat>, f: Seq<char>) -> Result<Option<MessageFormat>, CliErrorView> {
    let json = match cur {
        Some(m) => m,
        None => default_json(),
    };
    if f == "json"@ || f == "human"@ || f == "short"@ {
        if cur is Some {
            Err(CliErrorView::TwoMessageFormats)
        } else if f == "json"@ {
            Ok(Some(default_json()))
        } else if f == "human"@ {
            Ok(Some(MessageFormat::Human))
        } else {
            Ok(Some(MessageFormat::Short))
        }
    } else if f == "json-render-diagnostics"@ || f == "json-diagnostic-short"@ || f
        == "json-diagnostic-rendered-ansi"@ {
        match json {
            MessageFormat::Json { short, ansi, render_diagnostics } => if f == "json-render-diagnostics"@ {
                Ok(Some(MessageFormat::Json { short, ansi, render_diagnostics: true }))
            } else if f == "json-diagnostic-short"@ {
                Ok(Some(MessageFormat::Json { short: true, ansi, render_diagnostics }))
            } else {
                Ok(Some(MessageFormat::Json { short, ansi: true, render_diagnostics }))
            },
            _ => Err(CliErrorView::TwoMessageFormats),
        }
    } else {
        Err(CliErrorView::InvalidMessageFormat(f))
    }
}

/// The comma-separated specifiers of one value applied in order, each
/// lower-cased; the first error stops.
pub open spec fn mf_pieces(cur: Option<MessageFormat>, ps: Seq<Seq<char>>) -> Result<Option<MessageFormat>, CliErrorView>
    decreases ps.len(),
{
    if ps.len() == 0 {
        Ok(cur)
    } else {
        match mf_pieces(cur, ps.drop_last()) {
            Err(e) => Err(e),
            Ok(c) => mf_step(c, ascii_lower(ps.last())),
        }
    }
}

/// Every value of `--message-format` applied in order; `None` when none
/// was given.
pub open spec fn mf_all(values: Seq<Seq<char>>) -> Result<Option<MessageFormat>, CliErrorView>
    decreases values.len(),
{
    if values.len() == 0 {
        Ok(None)
    } else {
        match mf_all(values.drop_last()) {
            Err(e) => Err(e),
            Ok(c) => mf_pieces(c, split_all(values.last(), ',')),
        }
    }
}

/// Once applying the first specifiers fails, applying more fails alike.
proof fn lemma_mf_pieces_err(cur: Option<MessageFormat>, ps: Seq<Seq<char>>, n: nat)
    requires
        n <= ps.len(),
        mf_pieces(cur, ps.take(n as int)) is Err,
    ensures
        mf_pieces(cur, ps) == mf_pieces(cur, ps.take(n as int)),
    decreases ps.len() - n,
{
    if n < ps.len() {
        assert(ps.take(n + 1int).drop_last() =~= ps.take(n as int));
        lemma_mf_pieces_err(cur, ps, n + 1);
    } else {
        assert(ps.take(n as int) =~= ps);
    }
}

/// Once applying the first values fails, applying more fails alike.
proof fn lemma_mf_all_err(values: Seq<Seq<char>>, n: nat)
    requires
        n <= values.len(),
        mf_all(values.take(n as int)) is Err,
    ensures
        mf_all(values) == mf_all(values.take(n as int)),
    decreases values.len() - n,
{
    if n < values.len() {
        assert(values.take(n + 1int).drop_last() =~= values.take(n as int));
        lemma_mf_all_err(values, n + 1);
    } else {
        assert(values.take(n as int) =~= values);
    }
}

/// Applies one specifier.
fn mf_apply(cur: Option<MessageFormat>, f: &Vec<char>) -> (r: Result<Option<MessageFormat>, CliError>)
    ensures
        match r {
            Ok(m) => mf_step(cur, f@) == Ok::<Option<MessageFormat>, CliErrorView>(m),
            Err(e) => mf_step(cur, f@) == Err::<Option<MessageFormat>, CliErrorView>(e@),
        },
{
    let json = match cur {
        Some(m) => m,
        None => MessageFormat::Json { short: false, ansi: false, render_diagnostics: false },
    };
    let is_json = crate::text::eq_str(f, "json");
    let is_human = crate::text::eq_str(f, "human");
    let is_short = crate::text::eq_str(f, "short");
    let render = crate::text::eq_str(f, "json-render-diagnostics");
    let dshort = crate::text::eq_str(f, "json-diagnostic-short");
    let ansi_f = crate::text::eq_str(f, "json-diagnostic-rendered-ansi");
    if is_json || is_human || is_short {
        if cur.is_some() {
            Err(CliError::TwoMessageFormats)
        } else if is_json {
            Ok(Some(MessageFormat::Json { short: false, ansi: false, render_diagnostics: false }))
        } else if is_human {
            Ok(Some(MessageFormat::Human))
        } else {
            Ok(Some(MessageFormat::Short))
        }
    } else if render || dshort || ansi_f {
        match json {
            MessageFormat::Json { short, ansi, render_diagnostics } => if render {
                Ok(Some(MessageFormat::Json { short, ansi, render_diagnostics: true }))
            } else if dshort {
                Ok(Some(MessageFormat::Json { short: true, ansi, render_diagnostics }))
            } else {
                Ok(Some(MessageFormat::Json { short, ansi: true, render_diagnostics }))
            },
            _ => Err(CliError::TwoMessageFormats),
        }
    } else {
        Err(CliError::InvalidMessageFormat(string_of(f)))
    }
}

/// The message format the `--message-format` values choose (`None` when
/// none was given): each value is split at commas and each specifier
/// lower-cased and applied in order (see `mf_step`).
pub fn parse_message_format(values: &Vec<String>) -> (r: Result<Option<MessageFormat>, CliError>)
    ensures
        match r {
            Ok(m) => mf_all(strs(values@)) == Ok::<Option<MessageFormat>, CliErrorView>(m),
            Err(e) => mf_all(strs(values@)) == Err::<Option<MessageFormat>, CliErrorView>(e@),
        },
{
    let mut cur: Option<MessageFormat> = None;
    let mut i: usize = 0;
    while i < values.len()
        invariant
            i <= values@.len(),
            mf_all(strs(values@).take(i as int)) == Ok::<Option<MessageFormat>, CliErrorView>(cur),
        decreases values.len() - i,
    {
        let ghost c0 = cur;
        let pieces = split_all_chars(&chars_of(values[i].as_str()), ',');
        let ghost ps = seqs_view(pieces@);
        assert(strs(values@).take(i + 1).drop_last() =~= strs(values@).take(i as int));
        assert(strs(values@).take(i + 1).last() == values@[i as int]@);
        let mut j: usize = 0;
        while j < pieces.len()
            invariant
                j <= pieces@.len(),
                i < values@.len(),
                ps == seqs_view(pieces@),
                ps == split_all(values@[i as int]@, ','),
                mf_all(strs(values@).take(i as int)) == Ok::<Option<MessageFormat>, CliErrorView>(c0),
                strs(values@).take(i + 1).drop_last() == strs(values@).take(i as int),
                strs(values@).take(i + 1).last() == values@[i as int]@,
                mf_pieces(c0, ps.take(j as int)) == Ok::<Option<MessageFormat>, CliErrorView>(cur),
            decreases pieces.len() - j,
        {
            let low = ascii_lower_chars(&pieces[j]);
            assert(ps.take(j + 1).drop_last() =~= ps.take(j as int));
            assert(ps.take(j + 1).last() == pieces@[j as int]@);
            match mf_apply(cur, &low) {
                Ok(m) => {
                    cur = m;
                },
                Err(e) => {
                    proof {
                        lemma_mf_pieces_err(c0, ps, (j + 1) as nat);
                        lemma_mf_all_err(strs(values@), (i + 1) as nat);
                    }
                    return Err(e);
                },
            }
            j = j + 1;
        }
        assert(ps.take(ps.len() as int) =~= ps);
        i = i + 1;
    }
    assert(strs(values@).take(values@.len() as int) =~= strs(values@));
    Ok(cur)
}

/// Which profile names a command accepts for historical reasons.
#[derive(Clone, Copy, Debug, PartialEq, Eq, Structural)]
pub enum ProfileChecking {
    /// `cargo rustc` also accepts `test`, `bench` and `check`.
    LegacyRustc,
    /// `cargo check` and `cargo fix` also accept `test`.
    LegacyTestOnly,
    /// Any valid custom profile name.
    Custom,
}

/// Whether the name is accepted for historical reasons by the command.
pub open spec fn legacy_name(name: Seq<char>, checking: ProfileChecking) -> bool {
    match checking {
        ProfileChecking::LegacyRustc => name == "dev"@ || name == "test"@ || name == "bench"@ || name
            == "check"@,
        ProfileChecking::LegacyTestOnly => name == "test"@,
        ProfileChecking::Custom => false,
    }
}

/// The profile a command uses, and whether `--release` is ignored with a
/// warning: a legacy name given with `--profile` is used as it is;
/// otherwise `--release` means `release` and `--debug` means `dev` (a
/// different `--profile` with either is a conflict), `doc` is reserved,
/// and with no flag the command's default is used.
pub open spec fn profile_name_spec(
    specified: Option<Seq<char>>,
    release_present: bool,
    release: bool,
    debug: bool,
    default: Seq<char>,
    checking: ProfileChecking,
) -> Result<(Seq<char>, bool), CliErrorView> {
    match specified {
        Some(n) => if legacy_name(n, checking) {
            Ok((n, release_present))
        } else if release {
            if n == "release"@ {
                Ok(("release"@, false))
            } else {
                Err(CliErrorView::ProfileConflict("release"@, "release"@, n))
            }
        } else if debug {
            if n == "dev"@ {
                Ok(("dev"@, false))
            } else {
                Err(CliErrorView::ProfileConflict("debug"@, "dev"@, n))
            }
        } else if n == "doc"@ {
            Err(CliErrorView::DocProfileReserved)
        } else {
            Ok((n, false))
        },
        None => if release {
            Ok(("release"@, false))
        } else if debug {
            Ok(("dev"@, false))
        } else {
            Ok((default, false))
        },
    }
}

/// The profile a command uses (see `profile_name_spec`), and whether the
/// warning that `--release` is ignored is due.
pub fn get_profile_name(
    specified: Option<&str>,
    release_present: bool,
    release: bool,
    debug: bool,
    default: &str,
    checking: ProfileChecking,
) -> (r: Result<(String, bool), CliError>)
    ensures
        match r {
            Ok((n, w)) => profile_name_spec(
                match specified {
                    Some(s) => Some(s@),
                    None => None,
                },
                release_present,
                release,
                debug,
                default@,
                checking,
            ) == Ok::<(Seq<char>, bool), CliErrorView>((n@, w)),
            Err(e) => profile_name_spec(
                match specified {
                    Some(s) => Some(s@),
                    None => None,
                },
                release_present,
                release,
                debug,
                default@,
                checking,
            ) == Err::<(Seq<char>, bool), CliErrorView>(e@),
        },
{
    match specified {
        Some(n) => {
            let v = chars_of(n);
            let legacy = match checking {
                ProfileChecking::LegacyRustc => crate::text::eq_str(&v, "dev") || crate::text::eq_str(&v, "test")
                    || crate::text::eq_str(&v, "bench") || crate::text::eq_str(&v, "check"),
                ProfileChecking::LegacyTestOnly => crate::text::eq_str(&v, "test"),
                ProfileChecking::Custom => false,
            };
            if legacy {
                Ok((string_from(n), release_present))
            } else if release {
                if crate::text::eq_str(&v, "release") {
                    Ok((string_from("release"), false))
                } else {
                    Err(CliError::ProfileConflict {
                        flag: string_from("release"),
                        equiv: string_from("release"),
                        specified: string_from(n),
                    })
                }
            } else if debug {
                if crate::text::eq_str(&v, "dev") {
                    Ok((string_from("dev"), false))
                } else {
                    Err(CliError::ProfileConflict {
                        flag: string_from("debug"),
                        equiv: string_from("dev"),
                        specified: string_from(n),
                    })
                }
            } else if crate::text::eq_str(&v, "doc") {
                Err(CliError::DocProfileReserved)
            } else {
                Ok((string_from(n), false))
            }
        },
        None => if release {
            Ok((string_from("release"), false))
        } else if debug {
            Ok((string_from("dev"), false))
        } else {
            Ok((string_from(default), false))
        },
    }
}

/// The report formats of `--timings`.
#[derive(Clone, Copy, Debug, PartialEq, Eq, Structural)]
pub enum TimingOutput {
    Html,
    Json,
}

/// One `--timings` specifier added to the outputs so far; each output
/// needs `-Z unstable-options`.
pub open spec fn timing_step(outs: Seq<TimingOutput>, f: Seq<char>, unstable: bool) -> Result<Seq<TimingOutput>, CliErrorView> {
    if f == "html"@ {
        if !unstable {
            Err(CliErrorView::Unstable("--timings=html"@, 7405))
        } else {
            Ok(outs.push(TimingOutput::Html))
        }
    } else if f == "json"@ {
        if !unstable {
            Err(CliErrorView::Unstable("--timings=json"@, 7405))
        } else {
            Ok(outs.push(TimingOutput::Json))
        }
    } else {
        Err(CliErrorView::InvalidTimings(f))
    }
}

/// The comma-separated specifiers of one value applied in order.
pub open spec fn timing_pieces(outs: Seq<TimingOutput>, ps: Seq<Seq<char>>, unstable: bool) -> Result<Seq<TimingOutput>, CliErrorView>
    decreases ps.len(),
{
    if ps.len() == 0 {
        Ok(outs)
    } else {
        match timing_pieces(outs, ps.drop_last(), unstable) {
            Err(e) => Err(e),
            Ok(o) => timing_step(o, ascii_lower(ps.last()), unstable),
        }
    }
}

/// Every value of `--timings` applied in order.
pub open spec fn timing_all(values: Seq<Seq<char>>, unstable: bool) -> Result<Seq<TimingOutput>, CliErrorView>
    decreases values.len(),
{
    if values.len() == 0 {
        Ok(Seq::empty())
    } else {
        match timing_all(values.drop_last(), unstable) {
            Err(e) => Err(e),
            Ok(o) => timing_pieces(o, split_all(values.last(), ','), unstable),
        }
    }
}

/// The outputs `--timings` asks for: none without the flag; otherwise the
/// outputs of its values, or HTML when they give none.
pub open spec fn timings_spec(values: Option<Seq<Seq<char>>>, unstable: bool) -> Result<Seq<TimingOutput>, CliErrorView> {
    match values {
        None => Ok(Seq::empty()),
        Some(vs) => match timing_all(vs, unstable) {
            Err(e) => Err(e),
            Ok(o) => if o.len() == 0 {
                Ok(seq![TimingOutput::Html])
            } else {
                Ok(o)
            },
        },
    }
}

/// Once applying the first specifiers fails, applying more fails alike.
proof fn lemma_timing_pieces_err(outs: Seq<TimingOutput>, ps: Seq<Seq<char>>, unstable: bool, n: nat)
    requires
        n <= ps.len(),
        timing_pieces(outs, ps.take(n as int), unstable) is Err,
    ensures
        timing_pieces(outs, ps, unstable) == timing_pieces(outs, ps.take(n as int), unstable),
    decreases ps.len() - n,
{
    if n < ps.len() {
        assert(ps.take(n + 1int).drop_last() =~= ps.take(n as int));
        lemma_timing_pieces_err(outs, ps, unstable, n + 1);
    } else {
        assert(ps.take(n as int) =~= ps);
    }
}

/// Once applying the first values fails, applying more fails alike.
proof fn lemma_timing_all_err(values: Seq<Seq<char>>, unstable: bool, n: nat)
    requires
        n <= values.len(),
        timing_all(values.take(n as int), unstable) is Err,
    ensures
        timing_all(values, unstable) == timing_all(values.take(n as int), unstable),
    decreases values.len() - n,
{
    if n < values.len() {
        assert(values.take(n + 1int).drop_last() =~= values.take(n as int));
        lemma_timing_all_err(values, unstable, n + 1);
    } else {
        assert(values.take(n as int) =~= values);
    }
}

/// The outputs of `--timings` (see `timings_spec`); `values` is `None`
/// without the flag, and `unstable` tells whether `-Z unstable-options`
/// was given.
pub fn parse_timings(values: Option<&Vec<String>>, unstable: bool) -> (r: Result<Vec<TimingOutput>, CliError>)
    ensures
        match r {
            Ok(o) => timings_spec(
                match values {
                    Some(v) => Some(strs(v@)),
                    None => None,
                },
                unstable,
            ) == Ok::<Seq<TimingOutput>, CliErrorView>(o@),
            Err(e) => timings_spec(
                match values {
                    Some(v) => Some(strs(v@)),
                    None => None,
                },
                unstable,
            ) == Err::<Seq<TimingOutput>, CliErrorView>(e@),
        },
{
    let vals = match values {
        Some(v) => v,
        None => {
            return Ok(Vec::new());
        },
    };
    let mut outs: Vec<TimingOutput> = Vec::new();
    let mut i: usize = 0;
    while i < vals.len()
        invariant
            i <= vals@.len(),
            values == Some(vals),
            timing_all(strs(vals@).take(i as int), unstable) == Ok::<Seq<TimingOutput>, CliErrorView>(outs@),
        decreases vals.len() - i,
    {
        let ghost o0 = outs@;
        let pieces = split_all_chars(&chars_of(vals[i].as_str()), ',');
        let ghost ps = seqs_view(pieces@);
        assert(strs(vals@).take(i + 1).drop_last() =~= strs(vals@).take(i as int));
        assert(strs(vals@).take(i + 1).last() == vals@[i as int]@);
        let mut j: usize = 0;
        while j < pieces.len()
            invariant
                j <= pieces@.len(),
                i < vals@.len(),
                values == Some(vals),
                ps == seqs_view(pieces@),
                ps == split_all(vals@[i as int]@, ','),
                timing_all(strs(vals@).take(i as int), unstable) == Ok::<Seq<TimingOutput>, CliErrorView>(o0),
                strs(vals@).take(i + 1).drop_last() == strs(vals@).take(i as int),
                strs(vals@).take(i + 1).last() == vals@[i as int]@,
                timing_pieces(o0, ps.take(j as int), unstable) == Ok::<Seq<TimingOutput>, CliErrorView>(outs@),
            decreases pieces.len() - j,
        {
            let low = ascii_lower_chars(&pieces[j]);
            assert(ps.take(j + 1).drop_last() =~= ps.take(j as int));
            assert(ps.take(j + 1).last() == pieces@[j as int]@);
            let html = crate::text::eq_str(&low, "html");
            let json = crate::text::eq_str(&low, "json");
            if html || json {
                if !unstable {
                    proof {
                        lemma_timing_pieces_err(o0, ps, unstable, (j + 1) as nat);
                        lemma_timing_all_err(strs(vals@), unstable, (i + 1) as nat);
                    }
                    let flag = if html {
                        string_from("--timings=html")
                    } else {
                        string_from("--timings=json")
                    };
                    return Err(CliError::Unstable { flag, issue: 7405 });
                }
                outs.push(if html { TimingOutput::Html } else { TimingOutput::Json });
            } else {
                proof {
                    lemma_timing_pieces_err(o0, ps, unstable, (j + 1) as nat);
                    lemma_timing_all_err(strs(vals@), unstable, (i + 1) as nat);
                }
                return Err(CliError::InvalidTimings(string_of(&low)));
            }
            j = j + 1;
        }
        assert(ps.take(ps.len() as int) =~= ps);
        i = i + 1;
    }
    assert(strs(vals@).take(vals@.len() as int) =~= strs(vals@));
    if outs.len() == 0 {
        outs.push(TimingOutput::Html);
        assert(outs@ =~= seq![TimingOutput::Html]);
    }
    Ok(outs)
}

/// The first of the flags that need `-Z unstable-options` and were given
/// without it: `--keep-going`, `--build-plan`, `--unit-graph`, with their
/// tracking issues.
pub open spec fn unstable_flags_spec(keep_going: bool, build_plan: bool, unit_graph: bool, unstable: bool) -> Option<(Seq<char>, u32)> {
    if unstable {
        None
    } else if keep_going {
        Some(("--keep-going"@, 10496))
    } else if build_plan {
        Some(("--build-plan"@, 5579))
    } else if unit_graph {
        Some(("--unit-graph"@, 8002))
    } else {
        None
    }
}

/// Checks the flags that need `-Z unstable-options` (see
/// `unstable_flags_spec`).
pub fn check_unstable_flags(keep_going: bool, build_plan: bool, unit_graph: bool, unstable: bool) -> (r: Result<(), CliError>)
    ensures
        match unstable_flags_spec(keep_going, build_plan, unit_graph, unstable) {
            None => r is Ok,
            Some((flag, issue)) => r matches Err(e) && e@ == CliErrorView::Unstable(flag, issue),
        },
{
    if unstable {
        Ok(())
    } else if keep_going {
        Err(CliError::Unstable { flag: string_from("--keep-going"), issue: 10496 })
    } else if build_plan {
        Err(CliError::Unstable { flag: string_from("--build-plan"), issue: 5579 })
    } else if unit_graph {
        Err(CliError::Unstable { flag: string_from("--unit-graph"), issue: 8002 })
    } else {
        Ok(())
    }
}

/// Whether every character is an ASCII decimal digit.
pub open spec fn all_digits(d: Seq<char>) -> bool {
    forall|i: int| 0 <= i < d.len() ==> '0' <= #[trigger] d[i] <= '9'
}

/// The value of decimal digits.
pub open spec fn digits_value(d: Seq<char>) -> int
    decreases d.len(),
{
    if d.len() == 0 {
        0
    } else {
        digits_value(d.drop_last()) * 10 + (d.last() as int - '0' as int)
    }
}

/// What `str::parse::<u32>` gives for a text: the value of its decimal
/// digits, after an optional `+`, when there is at least one digit,
/// nothing else, and the value fits.
pub open spec fn parse_u32_result(s: Seq<char>) -> Option<u32> {
    let d = if s.len() > 0 && s[0] == '+' {
        s.drop_first()
    } else {
        s
    };
    if d.len() > 0 && all_digits(d) && digits_value(d) <= u32::MAX {
        Some(digits_value(d) as u32)
    } else {
        None
    }
}

/// Digit values grow as digits are added.
proof fn lemma_digits_grow(d: Seq<char>, n: int)
    requires
        0 <= n <= d.len(),
        all_digits(d),
    ensures
        digits_value(d.take(n)) <= digits_value(d),
        0 <= digits_value(d.take(n)),
    decreases d.len() - n,
{
    if n < d.len() {
        lemma_digits_grow(d, n + 1);
        assert(d.take(n + 1).drop_last() =~= d.take(n));
        assert('0' <= d[n] <= '9');
        lemma_digits_nonneg(d.take(n));
    } else {
        assert(d.take(n) =~= d);
        lemma_digits_nonneg(d);
    }
}

/// Digit values are not negative.
proof fn lemma_digits_nonneg(d: Seq<char>)
    requires
        all_digits(d),
    ensures
        0 <= digits_value(d),
    decreases d.len(),
{
    if d.len() > 0 {
        assert(all_digits(d.drop_last()));
        assert('0' <= d.last() <= '9');
        lemma_digits_nonneg(d.drop_last());
    }
}

/// Reads a decimal `u32` (see `parse_u32_result`).
fn parse_u32(s: &str) -> (r: Option<u32>)
    ensures
        r == parse_u32_result(s@),
{
    let v = chars_of(s);
    let mut i: usize = 0;
    if v.len() > 0 && v[0] == '+' {
        i = 1;
    }
    let ghost d = if v@.len() > 0 && v@[0] == '+' {
        v@.drop_first()
    } else {
        v@
    };
    assert(d =~= v@.skip(i as int));
    if i >= v.len() {
        return None;
    }
    let start = i;
    let mut acc: u64 = 0;
    while i < v.len()
        invariant
            start <= i <= v@.len(),
            v@ == s@,
            d == (if s@.len() > 0 && s@[0] == '+' {
                s@.drop_first()
            } else {
                s@
            }),
            d.len() > 0,
            d =~= v@.skip(start as int),
            all_digits(d.take(i - start)),
            acc as int == digits_value(d.take(i - start)),
            acc <= u32::MAX,
        decreases v.len() - i,
    {
        let c = v[i];
        let ghost k = i - start;
        assert(d[k] == c);
        if !('0' <= c && c <= '9') {
            assert(!all_digits(d));
            return None;
        }
        assert(d.take(k + 1).drop_last() =~= d.take(k));
        assert(d.take(k + 1).last() == c);
        assert(all_digits(d.take(k + 1)));
        let digit = (c as u32 - '0' as u32) as u64;
        acc = acc * 10 + digit;
        assert(acc as int == digits_value(d.take(k + 1)));
        i = i + 1;
        if acc > u32::MAX as u64 {
            proof {
                if all_digits(d) {
                    lemma_digits_grow(d, k + 1);
                }
            }
            return None;
        }
    }
    assert(d.take(i - start) =~= d);
    Some(acc as u32)
}

/// The number an option's value gives, if the option was given; an error
/// when it is not a number.
pub fn value_of_u32(arg: Option<&str>) -> (r: Result<Option<u32>, CliError>)
    ensures
        match arg {
            None => r == Ok::<Option<u32>, CliError>(None),
            Some(a) => match parse_u32_result(a@) {
                Some(n) => r == Ok::<Option<u32>, CliError>(Some(n)),
                None => r matches Err(e) && e@ == CliErrorView::InvalidNumber(a@),
            },
        },
{
    match arg {
        None => Ok(None),
        Some(a) => match parse_u32(a) {
            Some(n) => Ok(Some(n)),
            None => Err(CliError::InvalidNumber(string_from(a))),
        },
    }
}

/// Checks that no package selection of a single-package command is a glob
/// pattern.
pub fn check_single_package_specs(specs: &Vec<String>) -> (r: Result<(), CliError>)
    ensures
        (exists|i: int| 0 <= i < specs@.len() && is_glob_spec(#[trigger] specs@[i]@)) ==> (r matches Err(
            e,
        ) && e@ == CliErrorView::GlobPackages),
        !(exists|i: int| 0 <= i < specs@.len() && is_glob_spec(#[trigger] specs@[i]@)) ==> r is Ok,
{
    let mut i: usize = 0;
    while i < specs.len()
        invariant
            i <= specs@.len(),
            forall|j: int| 0 <= j < i ==> !is_glob_spec(#[trigger] specs@[j]@),
        decreases specs.len() - i,
    {
        if is_glob_pattern(specs[i].as_str()) {
            return Err(CliError::GlobPackages);
        }
        i = i + 1;
    }
    Ok(())
}

} // verus!
