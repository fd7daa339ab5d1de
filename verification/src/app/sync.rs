//! Importing the files of the drop directory.
//!
//! The directory is an inbox: what was imported is taken out of it, so that a
//! profile that is deleted later does not come back. What could not be imported
//! stays.

use vstd::prelude::*;
use vstd::slice::slice_to_vec;
use vstd::string::*;

use crate::config::{is_drop_dir, resolve_profiles_dir, AppConfig};
use crate::error::{AppError, AppResult};
use crate::paths::opt_path;
use crate::record::{grown, lemma_part, lemma_parts, lemma_since_none, lemma_since_one, lemma_since_push, since, Recorder};
use crate::text::{cut_last, decimal, decimal_string, has_text, join, joined, rsplit_once, same};

verus! {

/// What a synchronization did.
#[derive(Debug, Clone, PartialEq, Eq)]
pub struct SyncReport {
    pub imported: Vec<String>,
    pub skipped: usize,
    pub errors: Vec<String>,
}

/// What a synchronization did, as texts.
#[verifier::ext_equal]
pub struct ReportView {
    pub imported: Seq<Seq<char>>,
    pub skipped: nat,
    pub errors: Seq<Seq<char>>,
}

impl View for SyncReport {
    type V = ReportView;

    open spec fn view(&self) -> ReportView {
        ReportView {
            imported: self.imported.deep_view(),
            skipped: self.skipped as nat,
            errors: self.errors.deep_view(),
        }
    }
}

/// A report of nothing.
pub open spec fn empty_report() -> ReportView {
    ReportView { imported: Seq::empty(), skipped: 0, errors: Seq::empty() }
}

impl Default for SyncReport {
    fn default() -> (r: SyncReport)
        ensures
            r@ == empty_report(),
    {
        let r = SyncReport { imported: Vec::new(), skipped: 0, errors: Vec::new() };
        assert(r@ =~= empty_report());
        r
    }
}

/// An entry of the drop directory.
#[derive(Debug)]
pub struct DropEntry {
    pub file_name: String,
    pub is_file: bool,
}

/// The name of the profile that a file holds: a file with the extension of
/// configurations, named by what comes before it.
pub open spec fn profile_of(file_name: Seq<char>, is_file: bool) -> Option<Seq<char>> {
    if is_file {
        match cut_last(file_name, '.') {
            Some((stem, extension)) => if stem.len() > 0 && extension == "conf"@ {
                Some(stem)
            } else {
                None
            },
            None => None,
        }
    } else {
        None
    }
}

/// What is done with an entry.
#[derive(Debug)]
pub enum DropAction {
    /// It is no configuration.
    Ignore,
    /// NetworkManager has the profile already: the file is taken out.
    Consume,
    /// The profile is imported under its name.
    Import(String),
}

/// What is done with an entry, where `existing` are the names of the profiles.
pub fn plan_entry(existing: &[String], entry: &DropEntry) -> (r: DropAction)
    ensures
        match profile_of(entry.file_name@, entry.is_file) {
            Some(stem) => if existing.deep_view().contains(stem) {
                r is Consume
            } else {
                r matches DropAction::Import(name) && name@ == stem
            },
            None => r is Ignore,
        },
{
    if !entry.is_file {
        return DropAction::Ignore;
    }
    match rsplit_once(entry.file_name.as_str(), '.') {
        Some((stem, extension)) => if !stem.is_empty() && same(extension, "conf") {
            if has_text(existing, stem) {
                DropAction::Consume
            } else {
                DropAction::Import(stem.to_owned())
            }
        } else {
            DropAction::Ignore
        },
        None => DropAction::Ignore,
    }
}

/// The result of an import, as text.
pub open spec fn import_view(r: AppResult<()>) -> Option<Seq<char>> {
    match r {
        Ok(_) => None,
        Err(e) => Some(e.spec_text()),
    }
}

/// The report after one more entry, where `failure` is what its import said.
pub open spec fn report_with(
    report: ReportView,
    existing: Seq<Seq<char>>,
    e: DropEntry,
    failure: Option<Seq<char>>,
) -> ReportView {
    match profile_of(e.file_name@, e.is_file) {
        Some(stem) => if existing.contains(stem) {
            ReportView { skipped: report.skipped + 1, ..report }
        } else {
            match failure {
                None => ReportView { imported: report.imported.push(stem), ..report },
                Some(why) => ReportView {
                    errors: report.errors.push(e.file_name@ + ": "@ + why),
                    ..report
                },
            }
        },
        None => report,
    }
}

/// Whether an entry is taken out of the directory: a configuration that
/// NetworkManager has or that was imported.
pub open spec fn is_consumed(
    existing: Seq<Seq<char>>,
    e: DropEntry,
    failure: Option<Seq<char>>,
) -> bool {
    match profile_of(e.file_name@, e.is_file) {
        Some(stem) => existing.contains(stem) || failure is None,
        None => false,
    }
}

/// The report of entries.
pub open spec fn report_of(
    existing: Seq<Seq<char>>,
    entries: Seq<DropEntry>,
    failures: Seq<Option<Seq<char>>>,
) -> ReportView
    decreases entries.len(),
{
    if entries.len() == 0 {
        empty_report()
    } else {
        report_with(
            report_of(existing, entries.drop_last(), failures.drop_last()),
            existing,
            entries.last(),
            failures.last(),
        )
    }
}

/// The names of the entries that are taken out.
pub open spec fn consumed_of(
    existing: Seq<Seq<char>>,
    entries: Seq<DropEntry>,
    failures: Seq<Option<Seq<char>>>,
) -> Seq<Seq<char>>
    decreases entries.len(),
{
    if entries.len() == 0 {
        Seq::empty()
    } else {
        let before = consumed_of(existing, entries.drop_last(), failures.drop_last());
        if is_consumed(existing, entries.last(), failures.last()) {
            before.push(entries.last().file_name@)
        } else {
            before
        }
    }
}

/// Whether an entry is imported: a configuration that NetworkManager does not have.
pub open spec fn is_new(existing: Seq<Seq<char>>, e: DropEntry) -> bool {
    profile_of(e.file_name@, e.is_file) matches Some(stem) && !existing.contains(stem)
}

/// The names of the entries that are imported, in order.
pub open spec fn new_files(existing: Seq<Seq<char>>, entries: Seq<DropEntry>) -> Seq<Seq<char>>
    decreases entries.len(),
{
    if entries.len() == 0 {
        Seq::empty()
    } else {
        let before = new_files(existing, entries.drop_last());
        if is_new(existing, entries.last()) {
            before.push(entries.last().file_name@)
        } else {
            before
        }
    }
}

/// The names that calls were handed.
pub open spec fn names_of(calls: Seq<(Seq<char>, AppResult<()>)>) -> Seq<Seq<char>> {
    calls.map_values(|c: (Seq<char>, AppResult<()>)| c.0)
}

/// Whether `failures` is what the imports `calls` said of the entries: that of a
/// new one is what its own import said, and of the others nothing is said.
pub open spec fn imports_said(
    calls: Seq<(Seq<char>, AppResult<()>)>,
    existing: Seq<Seq<char>>,
    entries: Seq<DropEntry>,
    failures: Seq<Option<Seq<char>>>,
) -> bool
    decreases entries.len(),
{
    failures.len() == entries.len() && (entries.len() > 0 ==> if is_new(existing, entries.last()) {
        calls.len() > 0 && failures.last() == import_view(calls.last().1) && imports_said(
            calls.drop_last(),
            existing,
            entries.drop_last(),
            failures.drop_last(),
        )
    } else {
        failures.last() is None && imports_said(
            calls,
            existing,
            entries.drop_last(),
            failures.drop_last(),
        )
    })
}

/// Import the new profiles of the drop directory, where `existing` are the names
/// of the profiles and `import` imports the file of a name. Each new one is
/// imported once, in order, and no other. The result has the report and the names
/// of the files to take out.
pub fn sync_profiles_dir<I: Fn(&str) -> AppResult<()>>(
    existing: &[String],
    entries: &[DropEntry],
    import: &mut Recorder<str, AppResult<()>, I>,
) -> (r: (SyncReport, Vec<String>))
    ensures
        final(import).follows(*old(import)),
        names_of(since(old(import).calls(), final(import).calls())) == new_files(
            existing.deep_view(),
            entries@,
        ),
        exists|failures: Seq<Option<Seq<char>>>| #[trigger]
            imports_said(
                since(old(import).calls(), final(import).calls()),
                existing.deep_view(),
                entries@,
                failures,
            ) && r.0@ == report_of(existing.deep_view(), entries@, failures) && r.1.deep_view()
                == consumed_of(existing.deep_view(), entries@, failures),
{
    let mut imported: Vec<String> = Vec::new();
    let mut errors: Vec<String> = Vec::new();
    let mut skipped: usize = 0;
    let mut consumed: Vec<String> = Vec::new();
    let ghost start = import.calls();
    let ghost known = existing.deep_view();
    let ghost mut failures: Seq<Option<Seq<char>>> = Seq::empty();
    let mut i: usize = 0;
    proof {
        lemma_since_none(start);
        assert(names_of(since(start, start)) =~= Seq::<Seq<char>>::empty());
    }
    assert(entries@.take(0) =~= Seq::<DropEntry>::empty());
    assert(imported.deep_view() =~= Seq::<Seq<char>>::empty());
    assert(errors.deep_view() =~= Seq::<Seq<char>>::empty());
    assert(consumed.deep_view() =~= Seq::<Seq<char>>::empty());
    while i < entries.len()
        invariant
            i <= entries.len(),
            skipped <= i,
            known == existing.deep_view(),
            start == old(import).calls(),
            grown(start, import.calls()),
            import.follows(*old(import)),
            names_of(since(start, import.calls())) == new_files(known, entries@.take(i as int)),
            imports_said(
                since(start, import.calls()),
                known,
                entries@.take(i as int),
                failures,
            ),
            (ReportView {
                imported: imported.deep_view(),
                skipped: skipped as nat,
                errors: errors.deep_view(),
            }) == report_of(known, entries@.take(i as int), failures),
            consumed.deep_view() == consumed_of(known, entries@.take(i as int), failures),
        decreases entries.len() - i,
    {
        let entry = &entries[i];
        let ghost done = entries@.take(i as int);
        let ghost next = entries@.take(i as int + 1);
        assert(next.drop_last() =~= done);
        assert(next.last() == *entry);
        let ghost before = import.calls();
        let ghost so_far = since(start, before);
        let ghost (p, q, c) = (imported.deep_view(), errors.deep_view(), consumed.deep_view());
        let ghost mut failure: Option<Seq<char>> = None;
        match plan_entry(existing, entry) {
            DropAction::Ignore => {},
            DropAction::Consume => {
                skipped += 1;
                consumed.push(entry.file_name.clone());
                assert(consumed.deep_view() =~= c.push(entry.file_name@));
            },
            DropAction::Import(stem) => {
                let outcome = import.ask(entry.file_name.as_str());
                proof {
                    failure = import_view(outcome);
                    let call = (entry.file_name@, outcome);
                    lemma_since_push(start, before, call);
                    assert(names_of(so_far.push(call)) =~= names_of(so_far).push(call.0));
                    assert(so_far.push(call).drop_last() =~= so_far);
                }
                match outcome {
                    Ok(_) => {
                        let ghost text = stem@;
                        imported.push(stem);
                        assert(imported.deep_view() =~= p.push(text));
                        consumed.push(entry.file_name.clone());
                        assert(consumed.deep_view() =~= c.push(entry.file_name@));
                    },
                    Err(e) => {
                        let why = e.text();
                        let line = entry.file_name.clone().concat(": ").concat(why.as_str());
                        let ghost text = line@;
                        errors.push(line);
                        assert(errors.deep_view() =~= q.push(text));
                    },
                }
            },
        }
        proof {
            let old_failures = failures;
            failures = failures.push(failure);
            assert(failures.drop_last() =~= old_failures);
        }
        i += 1;
    }
    assert(entries@.take(i as int) =~= entries@);
    (SyncReport { imported, skipped, errors }, consumed)
}

/// Every configuration in the directory is counted once: as imported, as skipped
/// or as failed.
pub proof fn law_every_configuration_is_counted(
    calls: Seq<(Seq<char>, AppResult<()>)>,
    existing: Seq<Seq<char>>,
    entries: Seq<DropEntry>,
    failures: Seq<Option<Seq<char>>>,
)
    requires
        imports_said(calls, existing, entries, failures),
    ensures
        ({
            let report = report_of(existing, entries, failures);
            report.imported.len() + report.skipped + report.errors.len() == configurations(entries)
        }),
    decreases entries.len(),
{
    if entries.len() > 0 {
        let rest = if is_new(existing, entries.last()) {
            calls.drop_last()
        } else {
            calls
        };
        law_every_configuration_is_counted(
            rest,
            existing,
            entries.drop_last(),
            failures.drop_last(),
        );
    }
}

/// How many entries are configurations.
pub open spec fn configurations(entries: Seq<DropEntry>) -> nat
    decreases entries.len(),
{
    if entries.len() == 0 {
        0
    } else {
        let last = entries.last();
        configurations(entries.drop_last()) + if profile_of(last.file_name@, last.is_file) is Some {
            1nat
        } else {
            0nat
        }
    }
}

/// A file of a profile that NetworkManager has is never imported.
pub proof fn law_known_profiles_are_not_imported(
    existing: Seq<Seq<char>>,
    entries: Seq<DropEntry>,
    name: Seq<char>,
)
    requires
        new_files(existing, entries).contains(name),
    ensures
        exists|i: int|
            0 <= i < entries.len() && (#[trigger] entries[i]).file_name@ == name && is_new(
                existing,
                entries[i],
            ),
    decreases entries.len(),
{
    let rest = new_files(existing, entries.drop_last());
    let all = new_files(existing, entries);
    let k = choose|k: int| 0 <= k < all.len() && all[k] == name;
    if k < rest.len() {
        assert(rest[k] == name);
        law_known_profiles_are_not_imported(existing, entries.drop_last(), name);
        let i = choose|i: int|
            0 <= i < entries.len() - 1 && (#[trigger] entries.drop_last()[i]).file_name@ == name
                && is_new(existing, entries.drop_last()[i]);
        assert(entries[i] == entries.drop_last()[i]);
    } else {
        assert(entries[entries.len() - 1] == entries.last());
    }
}

/// A file that could not be imported stays in the directory, and so does every
/// file that is no configuration.
pub proof fn law_failed_files_stay(
    existing: Seq<Seq<char>>,
    e: DropEntry,
    failure: Option<Seq<char>>,
)
    ensures
        profile_of(e.file_name@, e.is_file) is None ==> !is_consumed(existing, e, failure),
        profile_of(e.file_name@, e.is_file) is Some && !existing.contains(
            profile_of(e.file_name@, e.is_file)->0,
        ) && failure is Some ==> !is_consumed(existing, e, failure),
        profile_of(e.file_name@, e.is_file) is Some && failure is None ==> is_consumed(
            existing,
            e,
            failure,
        ),
{
}

/// The mode of a directory that only the user can read.
pub const PRIVATE_MODE: u32 = 0o700;

/// Something that is asked of the file system about a directory.
#[derive(Debug)]
pub enum DirRequest {
    /// Is it there?
    Exists(Vec<u8>),
    /// Make it, and those that it lies in.
    Create(Vec<u8>),
    /// Give it a mode.
    SetMode(Vec<u8>, u32),
}

/// Something that is asked of the file system, with the path as its bytes.
pub enum DirRequestView {
    Exists(Seq<u8>),
    Create(Seq<u8>),
    SetMode(Seq<u8>, u32),
}

impl View for DirRequest {
    type V = DirRequestView;

    open spec fn view(&self) -> DirRequestView {
        match self {
            DirRequest::Exists(path) => DirRequestView::Exists(path@),
            DirRequest::Create(path) => DirRequestView::Create(path@),
            DirRequest::SetMode(path, mode) => DirRequestView::SetMode(path@, *mode),
        }
    }
}

/// What was asked of the file system about directories, and how it answered: the
/// answer to whether one is there is true or false, and a failure means that it is
/// not known to be there.
pub type DirAnswers = Seq<(DirRequestView, AppResult<bool>)>;

/// Whether a directory was found.
pub open spec fn was_found(answer: AppResult<bool>) -> bool {
    answer matches Ok(found) && found
}

/// Whether the calls make a directory that is missing, for the user only, and come
/// to `r`. One that is there is left as it is. That the mode cannot be set is no
/// failure.
pub open spec fn dir_run(calls: DirAnswers, dir: Seq<u8>, r: AppResult<()>) -> bool {
    calls.len() > 0 && calls[0].0 == DirRequestView::Exists(dir) && if was_found(calls[0].1) {
        calls.len() == 1 && r is Ok
    } else {
        calls.len() > 1 && calls[1].0 == DirRequestView::Create(dir) && match calls[1].1 {
            Err(e) => calls.len() == 2 && r == Err::<(), AppError>(e),
            Ok(_) => calls.len() == 3 && calls[2].0 == DirRequestView::SetMode(dir, 0o700)
                && r is Ok,
        }
    }
}

/// Make a directory that only the user can read, where there is none.
pub fn ensure_profiles_dir<F: Fn(&DirRequest) -> AppResult<bool>>(
    dir: &[u8],
    files: &mut Recorder<DirRequest, AppResult<bool>, F>,
) -> (r: AppResult<()>)
    ensures
        final(files).follows(*old(files)),
        dir_run(since(old(files).calls(), final(files).calls()), dir@, r),
{
    let ghost start = files.calls();
    let exists = DirRequest::Exists(slice_to_vec(dir));
    let found = files.ask(&exists);
    proof {
        lemma_since_one(start, (exists@, found));
    }
    if let Ok(true) = found {
        return Ok(());
    }
    let ghost one = files.calls();
    let create = DirRequest::Create(slice_to_vec(dir));
    let made = files.ask(&create);
    proof {
        lemma_since_push(start, one, (create@, made));
    }
    match made {
        Ok(_) => {},
        Err(e) => {
            return Err(e);
        },
    }
    let ghost two = files.calls();
    let mode = DirRequest::SetMode(slice_to_vec(dir), PRIVATE_MODE);
    let set = files.ask(&mode);
    proof {
        lemma_since_push(start, two, (mode@, set));
    }
    Ok(())
}

/// Whether the calls make two directories one after the other and come to `r`. One
/// that cannot be made ends it.
pub open spec fn both_made(
    calls: DirAnswers,
    first_dir: Seq<u8>,
    second_dir: Seq<u8>,
    r: AppResult<()>,
) -> bool {
    exists|n: int, first: AppResult<()>|
        0 <= n <= calls.len() && #[trigger] dir_run(calls.take(n), first_dir, first)
            && match first {
            Err(e) => calls.len() == n && r == Err::<(), AppError>(e),
            Ok(_) => dir_run(calls.skip(n), second_dir, r),
        }
}

/// Whether the calls make the directories of the program and come to `r`: that of
/// the settings, where there is one, and then the drop directory.
pub open spec fn dirs_made(
    calls: DirAnswers,
    config_dir: Option<Seq<u8>>,
    drop_dir: Seq<u8>,
    r: AppResult<()>,
) -> bool {
    match config_dir {
        Some(dir) => both_made(calls, dir, drop_dir, r),
        None => dir_run(calls, drop_dir, r),
    }
}

/// Make the directories of the program that are missing, for the user only: that
/// of the settings, where there is one, and the drop directory.
pub fn ensure_app_dirs<F: Fn(&DirRequest) -> AppResult<bool>>(
    config_dir: Option<&[u8]>,
    config: &AppConfig,
    files: &mut Recorder<DirRequest, AppResult<bool>, F>,
) -> (r: AppResult<()>)
    ensures
        final(files).follows(*old(files)),
        exists|drop_dir: Seq<u8>| #[trigger]
            is_drop_dir(drop_dir, config.general.profiles_dir@) && dirs_made(
                since(old(files).calls(), final(files).calls()),
                opt_path(config_dir),
                drop_dir,
                r,
            ),
{
    let ghost start = files.calls();
    let drop_dir = resolve_profiles_dir(config);
    assert(is_drop_dir(drop_dir@, config.general.profiles_dir@));
    let dir = match config_dir {
        Some(dir) => dir,
        None => {
            return ensure_profiles_dir(drop_dir.as_slice(), files);
        },
    };
    let first = ensure_profiles_dir(dir, files);
    let ghost made = first;
    let ghost middle = files.calls();
    let ghost n = since(start, middle).len() as int;
    proof {
        lemma_part(start, middle);
    }
    match first {
        Ok(_) => {},
        Err(e) => {
            let r: AppResult<()> = Err(e);
            assert(dir_run(since(start, middle).take(n), dir@, made));
            assert(both_made(since(start, middle), dir@, drop_dir@, r));
            return r;
        },
    }
    let r = ensure_profiles_dir(drop_dir.as_slice(), files);
    proof {
        lemma_parts(start, middle, files.calls());
        assert(dir_run(since(start, files.calls()).take(n), dir@, made));
        assert(both_made(since(start, files.calls()), dir@, drop_dir@, r));
    }
    r
}

/// What is said when the directory cannot be read.
pub fn unreadable_report(dir: &str, detail: &str) -> (r: SyncReport)
    ensures
        r@ == (ReportView {
            imported: Seq::empty(),
            skipped: 0,
            errors: seq!["Failed to read profiles directory "@ + dir@ + ": "@ + detail@],
        }),
{
    let line = "Failed to read profiles directory ".to_owned().concat(dir).concat(": ").concat(
        detail,
    );
    let errors = vec![line];
    let imported: Vec<String> = Vec::new();
    assert(imported.deep_view() =~= Seq::<Seq<char>>::empty());
    assert(errors.deep_view() =~= seq![
        "Failed to read profiles directory "@ + dir@ + ": "@ + detail@,
    ]);
    SyncReport { imported, skipped: 0, errors }
}

/// What is told of a synchronization that went well.
pub open spec fn sync_lines(r: ReportView) -> Seq<Seq<char>> {
    (if r.imported.len() > 0 {
        seq![
            "Imported "@ + decimal(r.imported.len()) + " new profiles: "@ + joined(
                r.imported,
                ", "@,
            ),
        ]
    } else {
        Seq::empty()
    }) + (if r.skipped > 0 {
        seq!["Skipped "@ + decimal(r.skipped) + " already existing profiles."@]
    } else {
        Seq::empty()
    }) + (if r.imported.len() == 0 && r.errors.len() == 0 {
        seq!["All profiles are up to date."@]
    } else {
        Seq::empty()
    })
}

/// What is told of a synchronization: the lines, and what went wrong.
pub fn sync_messages(report: &SyncReport) -> (r: (Vec<String>, Option<String>))
    ensures
        r.0.deep_view() == sync_lines(report@),
        match r.1 {
            Some(text) => report@.errors.len() > 0 && text@ == "Errors during sync:\n"@ + joined(
                report@.errors,
                "\n"@,
            ),
            None => report@.errors.len() == 0,
        },
{
    let mut lines: Vec<String> = Vec::new();
    assert(lines.deep_view() =~= Seq::<Seq<char>>::empty());
    if report.imported.len() > 0 {
        let n = decimal_string(report.imported.len() as u128);
        let list = report.imported.as_slice();
        assert(list.deep_view() =~= report@.imported);
        let names = join(list, ", ");
        lines.push(
            "Imported ".to_owned().concat(n.as_str()).concat(" new profiles: ").concat(
                names.as_str(),
            ),
        );
    }
    let ghost first = lines.deep_view();
    if report.skipped > 0 {
        let n = decimal_string(report.skipped as u128);
        lines.push(
            "Skipped ".to_owned().concat(n.as_str()).concat(" already existing profiles."),
        );
    }
    let ghost second = lines.deep_view();
    if report.imported.len() == 0 && report.errors.len() == 0 {
        lines.push("All profiles are up to date.".to_owned());
    }
    assert(lines.deep_view() =~= sync_lines(report@));
    let failures = if report.errors.len() > 0 {
        let list = report.errors.as_slice();
        assert(list.deep_view() =~= report@.errors);
        let all = join(list, "\n");
        Some("Errors during sync:\n".to_owned().concat(all.as_str()))
    } else {
        None
    };
    (lines, failures)
}

/// A file is a configuration where it ends in `.conf`, and its profile is named by
/// what stands before that; what is no file, or has another extension or none, is
/// no configuration.
pub proof fn law_configurations(stem: Seq<char>, extension: Seq<char>, name: Seq<char>)
    requires
        stem.len() > 0,
        !extension.contains('.'),
        !name.contains('.'),
    ensures
        profile_of(stem + seq!['.', 'c', 'o', 'n', 'f'], true) == Some(stem),
        extension != "conf"@ ==> profile_of(stem + seq!['.'] + extension, true) is None,
        profile_of(name, true) is None,
        forall|any: Seq<char>| #[trigger] profile_of(any, false) is None,
{
    let conf = seq!['c', 'o', 'n', 'f'];
    reveal_strlit("conf");
    assert("conf"@ =~= conf);
    lemma_extension(stem, conf);
    assert(stem + seq!['.', 'c', 'o', 'n', 'f'] =~= stem + seq!['.'] + conf);
    lemma_extension(stem, extension);
    crate::text::lemma_last_at(name, '.');
}

proof fn lemma_extension(stem: Seq<char>, extension: Seq<char>)
    requires
        !extension.contains('.'),
    ensures
        cut_last(stem + seq!['.'] + extension, '.') == Some((stem, extension)),
{
    let s = stem + seq!['.'] + extension;
    let n = stem.len() as int;
    assert(s[n] == '.');
    assert forall|k: int| n < k < s.len() implies s[k] != '.' by {
        assert(s[k] == extension[k - n - 1]);
        assert(extension.contains(extension[k - n - 1]));
    }
    crate::text::lemma_last_at(s, '.');
    assert(crate::text::last_at(s, '.') == n);
    assert(s.take(n) =~= stem);
    assert(s.skip(n + 1) =~= extension);
}

/// Whether every directory that is created is made private at once.
pub open spec fn made_private(calls: DirAnswers) -> bool {
    forall|i: int|
        0 <= i < calls.len() && (#[trigger] calls[i]).0 is Create && calls[i].1 is Ok ==> i + 1
            < calls.len() && calls[i + 1].0 == DirRequestView::SetMode(
            calls[i].0->Create_0,
            0o700,
        )
}

/// Whether a directory was looked for, and created where it was not there.
pub open spec fn looked_after(calls: DirAnswers, dir: Seq<u8>) -> bool {
    exists|i: int|
        0 <= i < calls.len() && (#[trigger] calls[i]).0 == DirRequestView::Exists(dir) && (
        calls[i].1 == Ok::<bool, AppError>(true) || i + 1 < calls.len() && calls[i + 1].0
            == DirRequestView::Create(dir))
}

proof fn lemma_dir(calls: DirAnswers, dir: Seq<u8>, r: AppResult<()>)
    requires
        dir_run(calls, dir, r),
    ensures
        made_private(calls),
        looked_after(calls, dir),
{
    assert(calls[0].0 == DirRequestView::Exists(dir));
}

/// The directory of the settings and the drop directory are looked for, and created
/// where they are not there; what is created is made accessible to its owner only
/// before anything else is done.
pub proof fn law_new_directories_are_private(
    calls: DirAnswers,
    config_dir: Option<Seq<u8>>,
    drop_dir: Seq<u8>,
    r: AppResult<()>,
)
    requires
        dirs_made(calls, config_dir, drop_dir, r),
    ensures
        made_private(calls),
        config_dir matches Some(dir) ==> looked_after(calls, dir),
        r is Ok ==> looked_after(calls, drop_dir),
{
    match config_dir {
        None => lemma_dir(calls, drop_dir, r),
        Some(dir) => {
            let (n, first) = choose|n: int, first: AppResult<()>|
                0 <= n <= calls.len() && #[trigger] dir_run(calls.take(n), dir, first)
                    && match first {
                    Err(e) => calls.len() == n && r == Err::<(), AppError>(e),
                    Ok(_) => dir_run(calls.skip(n), drop_dir, r),
                };
            let (a, b) = (calls.take(n), calls.skip(n));
            lemma_dir(a, dir, first);
            let i = choose|i: int|
                0 <= i < a.len() && (#[trigger] a[i]).0 == DirRequestView::Exists(dir) && (a[i].1
                    == Ok::<bool, AppError>(true) || i + 1 < a.len() && a[i + 1].0
                    == DirRequestView::Create(dir));
            assert(calls[i] == a[i]);
            if i + 1 < a.len() {
                assert(calls[i + 1] == a[i + 1]);
            }
            if first is Ok {
                lemma_dir(b, drop_dir, r);
                let j = choose|j: int|
                    0 <= j < b.len() && (#[trigger] b[j]).0 == DirRequestView::Exists(drop_dir) && (
                    b[j].1 == Ok::<bool, AppError>(true) || j + 1 < b.len() && b[j + 1].0
                        == DirRequestView::Create(drop_dir));
                assert(calls[n + j] == b[j]);
                if j + 1 < b.len() {
                    assert(calls[n + j + 1] == b[j + 1]);
                }
            }
            assert forall|k: int|
                0 <= k < calls.len() && (#[trigger] calls[k]).0 is Create && calls[k].1
                    is Ok implies k + 1 < calls.len() && calls[k + 1].0 == DirRequestView::SetMode(
                calls[k].0->Create_0,
                0o700,
            ) by {
                if k < n {
                    assert(a[k] == calls[k]);
                    assert(a[k + 1] == calls[k + 1]);
                } else {
                    assert(b[k - n] == calls[k]);
                    assert(b[k - n + 1] == calls[k + 1]);
                }
            }
        },
    }
}

/// What is told of a synchronization: a profile counts as imported exactly where a
/// configuration of its name that was not known came in without a failure; and a
/// file is done with exactly where its profile was known or came in.
pub proof fn law_report(
    existing: Seq<Seq<char>>,
    entries: Seq<DropEntry>,
    failures: Seq<Option<Seq<char>>>,
    stem: Seq<char>,
    name: Seq<char>,
)
    requires
        failures.len() == entries.len(),
    ensures
        report_of(existing, entries, failures).imported.contains(stem) <==> !existing.contains(stem)
            && exists|i: int|
            0 <= i < entries.len() && profile_of(
                (#[trigger] entries[i]).file_name@,
                entries[i].is_file,
            ) == Some(stem) && failures[i] is None,
        consumed_of(existing, entries, failures).contains(name) <==> exists|i: int|
            0 <= i < entries.len() && (#[trigger] entries[i]).file_name@ == name && profile_of(
                name,
                entries[i].is_file,
            ) is Some && (failures[i] is None || existing.contains(
                profile_of(name, entries[i].is_file)->0,
            )),
    decreases entries.len(),
{
    if entries.len() > 0 {
        let less = entries.drop_last();
        let fewer = failures.drop_last();
        let n = entries.len() - 1;
        let e = entries[n];
        law_report(existing, less, fewer, stem, name);
        assert(forall|i: int| 0 <= i < n ==> less[i] == entries[i] && fewer[i] == failures[i]);
        let before = report_of(existing, less, fewer).imported;
        let now = report_of(existing, entries, failures).imported;
        let held = consumed_of(existing, less, fewer);
        let done = consumed_of(existing, entries, failures);
        lemma_pushed(before, stem);
        lemma_pushed(held, name);
        let here = profile_of(e.file_name@, e.is_file) == Some(stem) && failures[n] is None;
        assert(now.contains(stem) <==> before.contains(stem) || (here && !existing.contains(stem)));
        let ends = e.file_name@ == name && profile_of(name, e.is_file) is Some && (failures[n] is None
            || existing.contains(profile_of(name, e.is_file)->0));
        assert(done.contains(name) <==> held.contains(name) || ends);
        if before.contains(stem) {
            let i = choose|i: int|
                0 <= i < less.len() && profile_of(
                    (#[trigger] less[i]).file_name@,
                    less[i].is_file,
                ) == Some(stem) && fewer[i] is None;
            assert(profile_of(entries[i].file_name@, entries[i].is_file) == Some(stem));
        }
        if held.contains(name) {
            let i = choose|i: int|
                0 <= i < less.len() && (#[trigger] less[i]).file_name@ == name && profile_of(
                    name,
                    less[i].is_file,
                ) is Some && (fewer[i] is None || existing.contains(
                    profile_of(name, less[i].is_file)->0,
                ));
            assert(entries[i].file_name@ == name);
        }
        if !existing.contains(stem) && exists|i: int|
            0 <= i < entries.len() && profile_of(
                (#[trigger] entries[i]).file_name@,
                entries[i].is_file,
            ) == Some(stem) && failures[i] is None {
            let i = choose|i: int|
                0 <= i < entries.len() && profile_of(
                    (#[trigger] entries[i]).file_name@,
                    entries[i].is_file,
                ) == Some(stem) && failures[i] is None;
            if i < n {
                assert(profile_of(less[i].file_name@, less[i].is_file) == Some(stem));
            }
        }
        if exists|i: int|
            0 <= i < entries.len() && (#[trigger] entries[i]).file_name@ == name && profile_of(
                name,
                entries[i].is_file,
            ) is Some && (failures[i] is None || existing.contains(
                profile_of(name, entries[i].is_file)->0,
            )) {
            let i = choose|i: int|
                0 <= i < entries.len() && (#[trigger] entries[i]).file_name@ == name && profile_of(
                    name,
                    entries[i].is_file,
                ) is Some && (failures[i] is None || existing.contains(
                    profile_of(name, entries[i].is_file)->0,
                ));
            if i < n {
                assert(less[i].file_name@ == name);
            }
        }
    }
}

/// What a list holds after one more text.
proof fn lemma_pushed(list: Seq<Seq<char>>, x: Seq<char>)
    ensures
        forall|y: Seq<char>| #[trigger] list.push(y).contains(x) <==> list.contains(x) || x == y,
{
    assert forall|y: Seq<char>| #[trigger] list.push(y).contains(x) <==> list.contains(x) || x
        == y by {
        let all = list.push(y);
        if list.contains(x) {
            let k = choose|k: int| 0 <= k < list.len() && list[k] == x;
            assert(all[k] == x);
        }
        if x == y {
            assert(all[list.len() as int] == x);
        }
        if all.contains(x) && x != y {
            let k = choose|k: int| 0 <= k < all.len() && all[k] == x;
            assert(list[k] == x);
        }
    }
}

} // verus!
