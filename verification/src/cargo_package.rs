//! Packaging a crate for upload: the checks on its metadata and file names,
//! and the plan of the archive (which entry holds which file, under which
//! path).
use vstd::prelude::*;
use crate::manifest::{ManifestMetadata, Target, TargetKindView, TargetView};
use crate::text::{chars_of, eq_str, push_all, push_str, string_of, strs};
use crate::unit_dependencies::targets_view;

verus! {

/// The name of the file that records version-control information in an
/// archive; no source file may have it.
pub open spec fn vcs_info_file() -> Seq<char> {
    ".cargo_vcs_info.json"@
}

/// Whether a piece of metadata is missing or empty.
pub open spec fn lacking(o: Option<String>) -> bool {
    match o {
        Some(s) => s@.len() == 0,
        None => true,
    }
}

/// The names of the metadata a human needs and the manifest lacks: the
/// description; the license and the license file when both lack; the
/// documentation, home page and repository when all three lack.
pub open spec fn missing_metadata(md: ManifestMetadata) -> Seq<Seq<char>> {
    let a: Seq<Seq<char>> = if lacking(md.description) {
        seq!["description"@]
    } else {
        Seq::empty()
    };
    let b: Seq<Seq<char>> = if lacking(md.license) && lacking(md.license_file) {
        seq!["license"@, "license-file"@]
    } else {
        Seq::empty()
    };
    let c: Seq<Seq<char>> = if lacking(md.documentation) && lacking(md.homepage) && lacking(md.repository) {
        seq!["documentation"@, "homepage"@, "repository"@]
    } else {
        Seq::empty()
    };
    a + b + c
}

/// The names joined by `, `.
pub open spec fn join_commas(s: Seq<Seq<char>>) -> Seq<char>
    decreases s.len(),
{
    if s.len() == 0 {
        Seq::empty()
    } else if s.len() == 1 {
        s[0]
    } else {
        join_commas(s.drop_last()) + ", "@ + s.last()
    }
}

/// The names as an English list: all but the last joined by `, `, then
/// ` or ` and the last.
pub open spec fn or_list(s: Seq<Seq<char>>) -> Seq<char> {
    if s.len() <= 1 {
        join_commas(s)
    } else {
        join_commas(s.drop_last()) + " or "@ + s.last()
    }
}

/// The warning a manifest without the metadata gets, if it lacks some.
pub open spec fn metadata_warning(md: ManifestMetadata) -> Option<Seq<char>> {
    let missing = missing_metadata(md);
    if missing.len() == 0 {
        None
    } else {
        Some(
            "manifest has no "@ + or_list(missing) + ".\nSee http://doc.crates.io/manifest.html#package-metadata for more info."@,
        )
    }
}

/// Whether the metadata is missing or empty (see `lacking`).
fn is_lacking(o: &Option<String>) -> (r: bool)
    ensures
        r == lacking(*o),
{
    match o {
        Some(s) => s.as_str().is_empty(),
        None => true,
    }
}

/// Appends a name to the list of missing metadata.
fn push_missing(v: &mut Vec<String>, s: &str)
    ensures
        strs(final(v)@) == strs(old(v)@).push(s@),
{
    let t = s.to_string();
    v.push(t);
    assert(strs(v@) =~= strs(old(v)@).push(s@));
}

/// The names joined by `, ` (see `join_commas`).
fn join_with_commas(s: &Vec<String>, n: usize) -> (r: Vec<char>)
    requires
        n <= s@.len(),
    ensures
        r@ == join_commas(strs(s@).take(n as int)),
{
    let mut out: Vec<char> = Vec::new();
    let mut i: usize = 0;
    while i < n
        invariant
            i <= n,
            n <= s@.len(),
            out@ == join_commas(strs(s@).take(i as int)),
        decreases n - i,
    {
        let ghost before = out@;
        let ghost t = strs(s@).take(i + 1);
        assert(t.drop_last() =~= strs(s@).take(i as int));
        assert(t.last() == s@[i as int]@);
        if i > 0 {
            push_str(&mut out, ", ");
        }
        let c = chars_of(s[i].as_str());
        push_all(&mut out, &c);
        proof {
            if i == 0 {
                assert(t.len() == 1);
                assert(out@ =~= t[0]);
            } else {
                assert(out@ =~= before + ", "@ + t.last());
            }
        }
        i = i + 1;
    }
    out
}

/// The warning for a manifest that lacks metadata a human needs to tell
/// what the package is about, if it lacks some (see `metadata_warning`).
pub fn check_metadata(md: &ManifestMetadata) -> (r: Option<String>)
    ensures
        match metadata_warning(*md) {
            Some(w) => r matches Some(s) && s@ == w,
            None => r is None,
        },
{
    let mut missing: Vec<String> = Vec::new();
    if is_lacking(&md.description) {
        push_missing(&mut missing, "description");
    }
    if is_lacking(&md.license) && is_lacking(&md.license_file) {
        push_missing(&mut missing, "license");
        push_missing(&mut missing, "license-file");
    }
    if is_lacking(&md.documentation) && is_lacking(&md.homepage) && is_lacking(&md.repository) {
        push_missing(&mut missing, "documentation");
        push_missing(&mut missing, "homepage");
        push_missing(&mut missing, "repository");
    }
    assert(strs(missing@) =~= missing_metadata(*md));
    if missing.len() == 0 {
        return None;
    }
    let n = missing.len();
    let mut things = join_with_commas(&missing, n - 1);
    if n > 1 {
        push_str(&mut things, " or ");
    }
    let last = chars_of(missing[n - 1].as_str());
    push_all(&mut things, &last);
    proof {
        let m = strs(missing@);
        assert(m.take(n - 1) =~= m.drop_last());
        assert(m.last() == missing@[n - 1]@);
        if n == 1 {
            assert(things@ =~= or_list(m));
        } else {
            assert(things@ =~= or_list(m));
        }
    }
    let mut msg: Vec<char> = Vec::new();
    push_str(&mut msg, "manifest has no ");
    push_all(&mut msg, &things);
    push_str(&mut msg, ".\nSee http://doc.crates.io/manifest.html#package-metadata for more info.");
    Some(string_of(&msg))
}

/// Whether the lock file goes into the archive: when the manifest asks to
/// publish it and the package has an example or a binary.
pub open spec fn include_lockfile_spec(publish_lockfile: bool, ts: Seq<TargetView>) -> bool {
    publish_lockfile && exists|i: int| 0 <= i < ts.len() && #[trigger] runnable(ts[i])
}

/// Whether the target is an example or a binary.
pub open spec fn runnable(t: TargetView) -> bool {
    t.kind is Example || t.kind is Bin
}

/// Whether the lock file goes into the archive (see
/// `include_lockfile_spec`).
pub fn include_lockfile(publish_lockfile: bool, targets: &Vec<Target>) -> (r: bool)
    ensures
        r == include_lockfile_spec(publish_lockfile, targets_view(targets@)),
{
    if !publish_lockfile {
        return false;
    }
    let ghost tv = targets_view(targets@);
    let mut i: usize = 0;
    while i < targets.len()
        invariant
            i <= targets@.len(),
            tv == targets_view(targets@),
            publish_lockfile,
            forall|k: int| 0 <= k < i ==> !#[trigger] runnable(tv[k]),
        decreases targets.len() - i,
    {
        assert(tv[i as int] == targets@[i as int]@);
        if targets[i].is_example() || targets[i].is_bin() {
            assert(runnable(tv[i as int]));
            return true;
        }
        i = i + 1;
    }
    false
}

/// Why a package cannot be archived.
#[derive(Debug, Clone, PartialEq, Eq)]
pub enum PackageError {
    /// A file name holds a character that some platform refuses in file
    /// names.
    SpecialCharacter { ch: char, path: String },
    /// A source file has the name reserved for version-control
    /// information.
    ReservedFileName,
}

/// The characters some platform refuses in file names, in the order they
/// are looked for.
pub open spec fn bad_chars() -> Seq<char> {
    seq!['/', '\\', '<', '>', ':', '"', '|', '?', '*']
}

/// The first of the refused characters (in the order of `bad_chars`),
/// from the `i`-th on, that the name holds.
pub open spec fn first_bad_from(name: Seq<char>, i: nat) -> Option<char>
    decreases bad_chars().len() - i,
{
    if i >= bad_chars().len() {
        None
    } else if name.contains(bad_chars()[i as int]) {
        Some(bad_chars()[i as int])
    } else {
        first_bad_from(name, i + 1)
    }
}

/// The last component of a path: what follows its last separator.
pub open spec fn file_name(path: Seq<char>, sep: char) -> Seq<char>
    decreases path.len(),
{
    if path.len() == 0 {
        path
    } else if path.last() == sep {
        Seq::empty()
    } else {
        file_name(path.drop_last(), sep).push(path.last())
    }
}

/// The refused character the file name of the path holds, if any.
pub open spec fn bad_char_of(path: Seq<char>, sep: char) -> Option<char> {
    first_bad_from(file_name(path, sep), 0)
}

/// The last component of a path (see `file_name`).
fn file_name_chars(path: &Vec<char>, sep: char) -> (r: Vec<char>)
    ensures
        r@ == file_name(path@, sep),
{
    let mut out: Vec<char> = Vec::new();
    let mut i: usize = 0;
    while i < path.len()
        invariant
            i <= path@.len(),
            out@ == file_name(path@.take(i as int), sep),
        decreases path.len() - i,
    {
        let ghost t = path@.take(i + 1);
        assert(t.drop_last() =~= path@.take(i as int));
        assert(t.last() == path@[i as int]);
        if path[i] == sep {
            out = Vec::new();
        } else {
            out.push(path[i]);
        }
        i = i + 1;
    }
    assert(path@.take(path@.len() as int) =~= path@);
    out
}

/// Whether the characters hold `c`.
fn holds_char(v: &Vec<char>, c: char) -> (r: bool)
    ensures
        r == v@.contains(c),
{
    let mut i: usize = 0;
    while i < v.len()
        invariant
            i <= v@.len(),
            forall|k: int| 0 <= k < i ==> v@[k] != c,
        decreases v.len() - i,
    {
        if v[i] == c {
            return true;
        }
        i = i + 1;
    }
    false
}

/// Checks that the file name of a path (its last component, after the
/// separator `sep`) holds none of the characters some platform refuses in
/// file names, and names the first one found (see `bad_char_of`).
pub fn check_filename(path: &str, sep: char) -> (r: Result<(), PackageError>)
    ensures
        match bad_char_of(path@, sep) {
            Some(c) => r matches Err(PackageError::SpecialCharacter { ch, path: p }) && ch == c && p@ == path@,
            None => r is Ok,
        },
{
    let name = file_name_chars(&chars_of(path), sep);
    let bad = vec!['/', '\\', '<', '>', ':', '"', '|', '?', '*'];
    assert(bad@ =~= bad_chars());
    let mut i: usize = 0;
    while i < bad.len()
        invariant
            i <= bad@.len(),
            bad@ == bad_chars(),
            name@ == file_name(path@, sep),
            first_bad_from(name@, 0) == first_bad_from(name@, i as nat),
        decreases bad.len() - i,
    {
        if holds_char(&name, bad[i]) {
            return Err(PackageError::SpecialCharacter { ch: bad[i], path: path.to_string() });
        }
        i = i + 1;
    }
    Ok(())
}

/// Whether a source file (by its path relative to the package root) has
/// the name reserved for version-control information.
pub open spec fn vcs_collision(relatives: Seq<Seq<char>>) -> bool {
    relatives.contains(vcs_info_file())
}

/// Checks that no source file has the name reserved for version-control
/// information, so that none can forge it (see `vcs_collision`).
pub fn check_vcs_file_collision(relatives: &Vec<String>) -> (r: Result<(), PackageError>)
    ensures
        vcs_collision(strs(relatives@)) ==> r == Err::<(), PackageError>(PackageError::ReservedFileName),
        !vcs_collision(strs(relatives@)) ==> r is Ok,
{
    let reserved = ".cargo_vcs_info.json".to_string();
    let mut i: usize = 0;
    while i < relatives.len()
        invariant
            i <= relatives@.len(),
            reserved@ == vcs_info_file(),
            forall|k: int| 0 <= k < i ==> (#[trigger] relatives@[k])@ != vcs_info_file(),
        decreases relatives.len() - i,
    {
        if relatives[i].eq(&reserved) {
            assert(strs(relatives@)[i as int] == vcs_info_file());
            return Err(PackageError::ReservedFileName);
        }
        i = i + 1;
    }
    proof {
        if vcs_collision(strs(relatives@)) {
            let k = choose|k: int| 0 <= k < strs(relatives@).len() && strs(relatives@)[k] == vcs_info_file();
            assert(relatives@[k]@ == vcs_info_file());
        }
    }
    Ok(())
}

/// Where the contents of an archive entry come from.
#[derive(Debug, Clone, Copy, PartialEq, Eq, Structural)]
pub enum EntrySource {
    /// The source file at this position of the list.
    File(usize),
    /// The manifest rewritten for the registry.
    RegistryManifest,
    /// The version-control information, as JSON.
    VcsInfo,
}

/// An entry of the archive: its path in the archive and where its contents
/// come from.
#[derive(Debug)]
pub struct ArchiveEntry {
    pub path: String,
    pub source: EntrySource,
}

/// The views of archive entries.
pub open spec fn entries_view(v: Seq<ArchiveEntry>) -> Seq<(Seq<char>, EntrySource)> {
    v.map_values(|e: ArchiveEntry| (e.path@, e.source))
}

/// The directory every entry of the archive lies in: the package's name
/// and version, then the separator.
pub open spec fn archive_prefix(name: Seq<char>, version: Seq<char>, sep: char) -> Seq<char> {
    name + "-"@ + version + seq![sep]
}

/// The entries for the first `n` source files (by their paths relative to
/// the package root): each under the archive's directory, except the
/// manifest, which is kept as `Cargo.toml.orig` and followed by the
/// manifest rewritten for the registry under its own name.
pub open spec fn file_entries(prefix: Seq<char>, rels: Seq<Seq<char>>, n: nat) -> Seq<(Seq<char>, EntrySource)>
    decreases n,
{
    if n == 0 {
        Seq::empty()
    } else {
        let prev = file_entries(prefix, rels, (n - 1) as nat);
        let i = (n - 1) as int;
        if rels[i] == "Cargo.toml"@ {
            prev.push((prefix + "Cargo.toml.orig"@, EntrySource::File(i as usize))).push(
                (prefix + rels[i], EntrySource::RegistryManifest),
            )
        } else {
            prev.push((prefix + rels[i], EntrySource::File(i as usize)))
        }
    }
}

/// The position of the first of the first `n` files whose name holds a
/// refused character, if any.
pub open spec fn first_bad_file(rels: Seq<Seq<char>>, sep: char, n: nat) -> Option<int>
    decreases n,
{
    if n == 0 {
        None
    } else {
        match first_bad_file(rels, sep, (n - 1) as nat) {
            Some(i) => Some(i),
            None => if bad_char_of(rels[n - 1], sep) is Some {
                Some(n - 1)
            } else {
                None
            },
        }
    }
}

/// All entries of the archive: those of the source files, then the
/// version-control information when there is some.
pub open spec fn archive_entries_spec(name: Seq<char>, version: Seq<char>, sep: char, rels: Seq<Seq<char>>, vcs_info: bool) -> Seq<
    (Seq<char>, EntrySource),
> {
    let prefix = archive_prefix(name, version, sep);
    let files = file_entries(prefix, rels, rels.len());
    if vcs_info {
        files.push((prefix + vcs_info_file(), EntrySource::VcsInfo))
    } else {
        files
    }
}

/// Once a bad file is among the first `n`, it is the first of more.
proof fn lemma_first_bad_file_stays(rels: Seq<Seq<char>>, sep: char, n: nat, m: nat)
    requires
        n <= m,
        first_bad_file(rels, sep, n) is Some,
    ensures
        first_bad_file(rels, sep, m) == first_bad_file(rels, sep, n),
    decreases m - n,
{
    if n < m {
        lemma_first_bad_file_stays(rels, sep, n, (m - 1) as nat);
    }
}

/// The path of an entry: the archive's directory, then `rest`.
fn entry_path(prefix: &Vec<char>, rest: &str) -> (r: String)
    ensures
        r@ == prefix@ + rest@,
{
    let mut v: Vec<char> = Vec::new();
    push_all(&mut v, prefix);
    push_str(&mut v, rest);
    string_of(&v)
}

/// Pushing an entry pushes its view.
proof fn lemma_entries_push(v: Seq<ArchiveEntry>, e: ArchiveEntry)
    ensures
        entries_view(v.push(e)) == entries_view(v).push((e.path@, e.source)),
{
    assert(entries_view(v.push(e)) =~= entries_view(v).push((e.path@, e.source)));
}

/// The plan of a package's archive: which entry holds which file, under
/// which path (see `archive_entries_spec`), for the source files given by
/// their paths relative to the package root, with `sep` the platform's
/// path separator. The first file whose name holds a refused character
/// (see `check_filename`) stops it.
pub fn archive_entries(name: &str, version: &str, sep: char, relatives: &Vec<String>, vcs_info: bool) -> (r: Result<
    Vec<ArchiveEntry>,
    PackageError,
>)
    requires
        relatives@.len() <= usize::MAX,
    ensures
        match first_bad_file(strs(relatives@), sep, relatives@.len()) {
            Some(i) => r matches Err(PackageError::SpecialCharacter { ch, path }) && bad_char_of(relatives@[i]@, sep)
                == Some(ch) && path@ == relatives@[i]@,
            None => r matches Ok(v) && entries_view(v@) == archive_entries_spec(
                name@,
                version@,
                sep,
                strs(relatives@),
                vcs_info,
            ),
        },
{
    let mut prefix: Vec<char> = Vec::new();
    push_str(&mut prefix, name);
    push_str(&mut prefix, "-");
    push_str(&mut prefix, version);
    prefix.push(sep);
    assert(prefix@ =~= archive_prefix(name@, version@, sep));
    let ghost rels = strs(relatives@);
    let mut out: Vec<ArchiveEntry> = Vec::new();
    let mut i: usize = 0;
    while i < relatives.len()
        invariant
            i <= relatives@.len(),
            rels == strs(relatives@),
            prefix@ == archive_prefix(name@, version@, sep),
            first_bad_file(rels, sep, i as nat) is None,
            entries_view(out@) == file_entries(prefix@, rels, i as nat),
        decreases relatives.len() - i,
    {
        let rel = &relatives[i];
        assert(rels[i as int] == rel@);
        match check_filename(rel.as_str(), sep) {
            Err(e) => {
                proof {
                    lemma_first_bad_file_stays(rels, sep, (i + 1) as nat, relatives@.len());
                }
                return Err(e);
            },
            Ok(()) => {},
        }
        let rel_chars = chars_of(rel.as_str());
        if eq_str(&rel_chars, "Cargo.toml") {
            let orig = ArchiveEntry { path: entry_path(&prefix, "Cargo.toml.orig"), source: EntrySource::File(i) };
            proof {
                lemma_entries_push(out@, orig);
            }
            out.push(orig);
            let toml = ArchiveEntry { path: entry_path(&prefix, rel.as_str()), source: EntrySource::RegistryManifest };
            proof {
                lemma_entries_push(out@, toml);
            }
            out.push(toml);
        } else {
            let e = ArchiveEntry { path: entry_path(&prefix, rel.as_str()), source: EntrySource::File(i) };
            proof {
                lemma_entries_push(out@, e);
            }
            out.push(e);
        }
        i = i + 1;
    }
    if vcs_info {
        let e = ArchiveEntry { path: entry_path(&prefix, ".cargo_vcs_info.json"), source: EntrySource::VcsInfo };
        proof {
            lemma_entries_push(out@, e);
        }
        out.push(e);
    }
    Ok(out)
}

} // verus!
