//! Taking the executable of a runtime out of a downloaded archive.

use vstd::prelude::*;

use crate::error::AppError;
use crate::paths;
use crate::paths::path_file_name;
use crate::runtime;
use crate::runtime::binary_name_for_platform;
use crate::runtime::parse_archive_name;
use crate::runtime::RuntimeCandidate;
use crate::text;

verus! {

/// `std::io::Error`, the reason why bytes could not be read.
#[verifier::external_type_specification]
#[verifier::external_body]
pub struct ExIoError(std::io::Error);

/// `zip::result::ZipError`, the reason why a zip archive could not be read.
#[verifier::external_type_specification]
#[verifier::external_body]
pub struct ExZipError(zip::result::ZipError);

/// `std::io::Cursor`, bytes to be read from.
#[verifier::external_type_specification]
#[verifier::external_body]
#[verifier::reject_recursive_types(T)]
pub struct ExCursor<T>(std::io::Cursor<T>);

/// `zip::ZipArchive`, a zip archive.
#[verifier::external_type_specification]
#[verifier::external_body]
#[verifier::reject_recursive_types(R)]
pub struct ExZipArchive<R>(zip::ZipArchive<R>);

/// An entry of a zip archive.
pub struct ZipEntry {
    /// Its name, where the entry can be opened.
    pub name: Option<Seq<char>>,
    /// Its contents, where they can be read.
    pub data: Option<Seq<u8>>,
}

/// An entry of a tar archive.
pub enum TarEntry {
    /// It cannot be read.
    Unreadable,
    /// It has a path, which may not be UTF-8, and contents, where they can be
    /// read.
    Readable { path: Option<Seq<char>>, data: Option<Seq<u8>> },
}

/// The entries of a zip archive that `zip::ZipArchive::new` reads from bytes.
pub uninterp spec fn unzipped(bytes: Seq<u8>) -> Option<Seq<ZipEntry>>;

/// The entries of an opened zip archive.
pub uninterp spec fn zip_entries(
    archive: zip::ZipArchive<std::io::Cursor<&[u8]>>,
) -> Seq<ZipEntry>;

/// The entries that `tar::Archive::entries` yields for compressed bytes, up to
/// the first that cannot be read.
pub uninterp spec fn untarred(bytes: Seq<u8>) -> Option<Seq<TarEntry>>;

/// An entry of an archive as it shows itself on this machine.
pub enum ListedEntry {
    /// It cannot be read.
    Unreadable,
    /// Its path cannot be read.
    PathUnreadable,
    /// It has a file name, or none that is a text.
    Named(Option<String>),
}

/// Calls `zip::ZipArchive::new` on the bytes. Whether it succeeds, and with
/// which entries, depends on the bytes alone.
#[verifier::external_body]
fn open_zip(bytes: &[u8]) -> (opened: Result<
    zip::ZipArchive<std::io::Cursor<&[u8]>>,
    zip::result::ZipError,
>)
    ensures
        match opened {
            Ok(archive) => unzipped(bytes@) == Some(zip_entries(archive)),
            Err(_) => unzipped(bytes@) is None,
        },
{
    zip::ZipArchive::new(std::io::Cursor::new(bytes))
}

/// Calls `zip::ZipArchive::len`: the number of entries.
#[verifier::external_body]
fn zip_len(archive: &zip::ZipArchive<std::io::Cursor<&[u8]>>) -> (n: usize)
    ensures
        n == zip_entries(*archive).len(),
{
    archive.len()
}

/// Calls `zip::ZipArchive::by_index` and takes the entry's name. The entries
/// stay the same.
#[verifier::external_body]
fn zip_name(archive: &mut zip::ZipArchive<std::io::Cursor<&[u8]>>, index: usize) -> (name: Result<
    String,
    zip::result::ZipError,
>)
    requires
        index < zip_entries(*old(archive)).len(),
    ensures
        zip_entries(*final(archive)) == zip_entries(*old(archive)),
        match name {
            Ok(s) => zip_entries(*old(archive))[index as int].name == Some(s@),
            Err(_) => zip_entries(*old(archive))[index as int].name is None,
        },
{
    Ok(archive.by_index(index)?.name().to_owned())
}

/// Calls `zip::ZipArchive::by_index` and reads the entry with
/// `std::io::Read::read_to_end`. The entries stay the same.
#[verifier::external_body]
fn zip_data(archive: &mut zip::ZipArchive<std::io::Cursor<&[u8]>>, index: usize) -> (data: Result<
    Vec<u8>,
    zip::result::ZipError,
>)
    requires
        index < zip_entries(*old(archive)).len(),
        zip_entries(*old(archive))[index as int].name is Some,
    ensures
        zip_entries(*final(archive)) == zip_entries(*old(archive)),
        match data {
            Ok(d) => zip_entries(*old(archive))[index as int].data == Some(d@),
            Err(_) => zip_entries(*old(archive))[index as int].data is None,
        },
{
    let mut out: Vec<u8> = Vec::new();
    std::io::Read::read_to_end(&mut archive.by_index(index)?, &mut out)?;
    Ok(out)
}

/// An entry shows itself as `listed` on some machine.
pub open spec fn tar_entry_shown(entry: TarEntry, listed: ListedEntry) -> bool {
    match entry {
        TarEntry::Unreadable => listed is Unreadable,
        TarEntry::Readable { path, .. } => !(listed is Unreadable) && match path {
            Some(p) => listed matches ListedEntry::Named(file_name) && paths::file_name_shown(
                p,
                text::text_option(file_name),
            ),
            None => true,
        },
    }
}

/// Calls `tar::Archive::entries` on the bytes, decompressed by
/// `flate2::read::GzDecoder`, and takes each entry's `path` and of it the file
/// name. Which entries there are depends on the bytes alone. The file name is
/// exact for an ordinary path; where the platforms divide a path differently, it
/// is one of the readings. Nothing is claimed of a path that is not UTF-8, which
/// some platforms refuse.
#[verifier::external_body]
fn list_tar(bytes: &[u8]) -> (listed: Result<Vec<ListedEntry>, std::io::Error>)
    ensures
        match listed {
            Ok(entries) => untarred(bytes@) matches Some(found) && entries@.len() == found.len()
                && forall|i: int|
                0 <= i < found.len() ==> tar_entry_shown(#[trigger] found[i], entries@[i]),
            Err(_) => untarred(bytes@) is None,
        },
{
    let decoder = flate2::read::GzDecoder::new(std::io::Cursor::new(bytes));
    let mut archive = tar::Archive::new(decoder);
    let listed = archive.entries()?.map(|entry| match entry {
        Err(_) => ListedEntry::Unreadable,
        Ok(entry) => match entry.path() {
            Err(_) => ListedEntry::PathUnreadable,
            Ok(path) => ListedEntry::Named(
                path.file_name().and_then(|name| name.to_str()).map(str::to_owned),
            ),
        },
    });
    Ok(listed.collect())
}

/// Calls `tar::Archive::entries` on the bytes, decompressed by
/// `flate2::read::GzDecoder`, and reads the entry at an index with
/// `std::io::Read::read_to_end`.
#[verifier::external_body]
fn tar_data(bytes: &[u8], index: usize) -> (data: Result<Vec<u8>, std::io::Error>)
    requires
        untarred(bytes@) is Some,
        index < untarred(bytes@)->0.len(),
        untarred(bytes@)->0[index as int] is Readable,
    ensures
        match data {
            Ok(d) => untarred(bytes@)->0[index as int]->data == Some(d@),
            Err(_) => untarred(bytes@)->0[index as int]->data is None,
        },
{
    let decoder = flate2::read::GzDecoder::new(std::io::Cursor::new(bytes));
    let mut archive = tar::Archive::new(decoder);
    let mut out: Vec<u8> = Vec::new();
    match archive.entries()?.nth(index) {
        Some(entry) => std::io::Read::read_to_end(&mut entry?, &mut out)?,
        None => 0,
    };
    Ok(out)
}

/// A file name is the wanted one, but for the case of ASCII letters.
pub open spec fn wanted(file_name: Option<Seq<char>>, expected: Seq<char>) -> bool {
    match file_name {
        Some(name) => text::lower(name) == text::lower(expected),
        None => false,
    }
}

/// Whether a file name is the wanted one, but for the case of ASCII letters.
pub fn is_wanted(file_name: &Option<String>, expected: &str) -> (yes: bool)
    ensures
        yes == wanted(text::text_option(*file_name), expected@),
{
    match file_name {
        Some(name) => text::same_ignoring_case(name.as_str(), expected),
        None => false,
    }
}

/// The search for a file passes over an entry.
pub open spec fn passed(entry: ListedEntry, expected: Seq<char>) -> bool {
    entry matches ListedEntry::Named(file_name) && !wanted(text::text_option(file_name), expected)
}

/// Where the search for a file in a list of entries stops.
pub open spec fn stops_at(entries: Seq<ListedEntry>, expected: Seq<char>, k: int) -> bool {
    &&& 0 <= k <= entries.len()
    &&& forall|j: int| 0 <= j < k ==> passed(#[trigger] entries[j], expected)
    &&& k < entries.len() ==> !passed(entries[k], expected)
}

/// The index of the first entry of a tar archive with the wanted file name; an
/// entry that cannot be read before it is a fault.
pub fn find_tar_entry(entries: &Vec<ListedEntry>, expected: &str) -> (found: Result<usize, AppError>)
    ensures
        exists|k: int| #[trigger]
            stops_at(entries@, expected@, k) && match found {
                Ok(index) => index == k && k < entries@.len() && entries@[k] is Named,
                Err(e) => if k == entries@.len() {
                    e matches AppError::BinaryNotInArchive(name) && name@ == expected@
                } else {
                    (entries@[k] is Unreadable && e == AppError::UnreadableTarEntry) || (
                    entries@[k] is PathUnreadable && e == AppError::UnreadableTarPath)
                },
            },
{
    let mut i: usize = 0;
    while i < entries.len()
        invariant
            i <= entries@.len(),
            forall|j: int| 0 <= j < i ==> passed(#[trigger] entries@[j], expected@),
        decreases entries@.len() - i,
    {
        match &entries[i] {
            ListedEntry::Unreadable => {
                assert(stops_at(entries@, expected@, i as int));
                return Err(AppError::UnreadableTarEntry);
            },
            ListedEntry::PathUnreadable => {
                assert(stops_at(entries@, expected@, i as int));
                return Err(AppError::UnreadableTarPath);
            },
            ListedEntry::Named(file_name) => {
                if is_wanted(file_name, expected) {
                    assert(stops_at(entries@, expected@, i as int));
                    return Ok(i);
                }
            },
        }
        i = i + 1;
    }
    assert(stops_at(entries@, expected@, i as int));
    Err(AppError::BinaryNotInArchive(expected.to_owned()))
}

/// The entries show themselves as listed on some machine.
pub open spec fn tar_listing(found: Seq<TarEntry>, listed: Seq<ListedEntry>) -> bool {
    &&& listed.len() == found.len()
    &&& forall|i: int| 0 <= i < found.len() ==> tar_entry_shown(#[trigger] found[i], listed[i])
}

/// What comes of a search in a tar archive that stops at `k`.
pub open spec fn tar_result(
    found: Seq<TarEntry>,
    listed: Seq<ListedEntry>,
    expected: Seq<char>,
    k: int,
    outcome: Result<Vec<u8>, AppError>,
) -> bool {
    if k == found.len() {
        outcome matches Err(AppError::BinaryNotInArchive(name)) && name@ == expected
    } else {
        match listed[k] {
            ListedEntry::Unreadable => outcome == Err::<Vec<u8>, AppError>(
                AppError::UnreadableTarEntry,
            ),
            ListedEntry::PathUnreadable => outcome == Err::<Vec<u8>, AppError>(
                AppError::UnreadableTarPath,
            ),
            ListedEntry::Named(_) => found[k] is Readable && match found[k]->data {
                Some(data) => outcome matches Ok(bytes) && bytes@ == data,
                None => outcome == Err::<Vec<u8>, AppError>(AppError::ExtractionFailed),
            },
        }
    }
}

/// What comes of the search for an executable in a tar archive, where its
/// entries show themselves as listed.
pub open spec fn tar_outcome(
    found: Seq<TarEntry>,
    listed: Seq<ListedEntry>,
    expected: Seq<char>,
    outcome: Result<Vec<u8>, AppError>,
) -> bool {
    &&& tar_listing(found, listed)
    &&& exists|k: int| #[trigger]
        stops_at(listed, expected, k) && tar_result(found, listed, expected, k, outcome)
}

/// What comes of taking an executable out of a compressed tar archive.
pub open spec fn tar_extraction(
    bytes: Seq<u8>,
    expected: Seq<char>,
    outcome: Result<Vec<u8>, AppError>,
) -> bool {
    match untarred(bytes) {
        Some(found) => exists|listed: Seq<ListedEntry>| #[trigger]
            tar_outcome(found, listed, expected, outcome),
        None => outcome == Err::<Vec<u8>, AppError>(AppError::UnreadableTar),
    }
}

/// Takes the executable for a platform out of a compressed tar archive.
pub fn extract_from_tar_gz(bytes: &[u8], platform: &str) -> (outcome: Result<Vec<u8>, AppError>)
    ensures
        tar_extraction(bytes@, runtime::executable_of(platform@), outcome),
{
    let expected = binary_name_for_platform(platform);
    let listed = match list_tar(bytes) {
        Ok(listed) => listed,
        Err(_) => {
            return Err(AppError::UnreadableTar);
        },
    };
    let ghost found = untarred(bytes@)->0;
    let outcome = match find_tar_entry(&listed, expected) {
        Ok(index) => {
            assert(tar_entry_shown(found[index as int], listed@[index as int]));
            match tar_data(bytes, index) {
                Ok(data) => Ok(data),
                Err(_) => Err(AppError::ExtractionFailed),
            }
        },
        Err(e) => Err(e),
    };
    assert(tar_outcome(found, listed@, expected@, outcome));
    outcome
}

/// The file names that the entries of a zip archive have on some machine.
pub open spec fn zip_listing(found: Seq<ZipEntry>, names: Seq<Option<Seq<char>>>) -> bool {
    &&& names.len() == found.len()
    &&& forall|i: int|
        0 <= i < found.len() && found[i].name is Some ==> paths::file_name_shown(
            (#[trigger] found[i]).name->0,
            names[i],
        )
}

/// Where the search for a file in a zip archive stops.
pub open spec fn zip_stops_at(
    found: Seq<ZipEntry>,
    names: Seq<Option<Seq<char>>>,
    expected: Seq<char>,
    k: int,
) -> bool {
    &&& 0 <= k <= found.len()
    &&& forall|j: int|
        0 <= j < k ==> (#[trigger] found[j]).name is Some && !wanted(names[j], expected)
    &&& k < found.len() ==> found[k].name is None || wanted(names[k], expected)
}

/// What comes of a search in a zip archive that stops at `k`.
pub open spec fn zip_result(
    found: Seq<ZipEntry>,
    expected: Seq<char>,
    k: int,
    outcome: Result<Vec<u8>, AppError>,
) -> bool {
    if k == found.len() {
        outcome matches Err(AppError::BinaryNotInArchive(name)) && name@ == expected
    } else if found[k].name is None {
        outcome == Err::<Vec<u8>, AppError>(AppError::UnreadableZipEntry)
    } else {
        match found[k].data {
            Some(data) => outcome matches Ok(bytes) && bytes@ == data,
            None => outcome == Err::<Vec<u8>, AppError>(AppError::ExtractionFailed),
        }
    }
}

/// What comes of the search for an executable in a zip archive, where its
/// entries have the given file names.
pub open spec fn zip_outcome(
    found: Seq<ZipEntry>,
    names: Seq<Option<Seq<char>>>,
    expected: Seq<char>,
    outcome: Result<Vec<u8>, AppError>,
) -> bool {
    &&& zip_listing(found, names)
    &&& exists|k: int| #[trigger]
        zip_stops_at(found, names, expected, k) && zip_result(found, expected, k, outcome)
}

/// What comes of taking an executable out of a zip archive.
pub open spec fn zip_extraction(
    bytes: Seq<u8>,
    expected: Seq<char>,
    outcome: Result<Vec<u8>, AppError>,
) -> bool {
    match unzipped(bytes) {
        Some(found) => exists|names: Seq<Option<Seq<char>>>| #[trigger]
            zip_outcome(found, names, expected, outcome),
        None => outcome == Err::<Vec<u8>, AppError>(AppError::UnreadableZip),
    }
}

/// Takes the executable for a platform out of a zip archive.
pub fn extract_from_zip(bytes: &[u8], platform: &str) -> (outcome: Result<Vec<u8>, AppError>)
    ensures
        zip_extraction(bytes@, runtime::executable_of(platform@), outcome),
{
    let expected = binary_name_for_platform(platform);
    let mut archive = match open_zip(bytes) {
        Ok(archive) => archive,
        Err(_) => {
            return Err(AppError::UnreadableZip);
        },
    };
    let ghost found = zip_entries(archive);
    let count: usize = zip_len(&archive);
    let ghost mut seen: Seq<Option<Seq<char>>> = Seq::empty();
    let mut index: usize = 0;
    while index < count
        invariant
            index <= count,
            count == found.len(),
            zip_entries(archive) == found,
            unzipped(bytes@) == Some(found),
            expected@ == runtime::executable_of(platform@),
            seen.len() == index,
            forall|j: int|
                0 <= j < index ==> (#[trigger] found[j]).name is Some && paths::file_name_shown(
                    found[j].name->0,
                    seen[j],
                ) && !wanted(seen[j], expected@),
        decreases count - index,
    {
        let name = match zip_name(&mut archive, index) {
            Ok(name) => name,
            Err(_) => {
                let outcome: Result<Vec<u8>, AppError> = Err(AppError::UnreadableZipEntry);
                proof {
                    lemma_zip_outcome(bytes@, found, seen, expected@, index as int, outcome);
                }
                return outcome;
            },
        };
        let file_name = path_file_name(name.as_str());
        proof {
            seen = seen.push(text::text_option(file_name));
        }
        if is_wanted(&file_name, expected) {
            let outcome: Result<Vec<u8>, AppError> = match zip_data(&mut archive, index) {
                Ok(data) => Ok(data),
                Err(_) => Err(AppError::ExtractionFailed),
            };
            proof {
                lemma_zip_outcome(bytes@, found, seen, expected@, index as int, outcome);
            }
            return outcome;
        }
        index = index + 1;
    }
    let outcome: Result<Vec<u8>, AppError> = Err(AppError::BinaryNotInArchive(expected.to_owned()));
    proof {
        lemma_zip_outcome(bytes@, found, seen, expected@, index as int, outcome);
    }
    outcome
}

/// The names that were seen can be completed by names of the entries that were
/// not looked at.
proof fn lemma_zip_outcome(
    bytes: Seq<u8>,
    found: Seq<ZipEntry>,
    seen: Seq<Option<Seq<char>>>,
    expected: Seq<char>,
    k: int,
    outcome: Result<Vec<u8>, AppError>,
)
    requires
        unzipped(bytes) == Some(found),
        0 <= k <= found.len(),
        k <= seen.len() <= found.len(),
        forall|j: int|
            0 <= j < k ==> (#[trigger] found[j]).name is Some && !wanted(seen[j], expected),
        forall|j: int|
            0 <= j < seen.len() && found[j].name is Some ==> paths::file_name_shown(
                (#[trigger] found[j]).name->0,
                seen[j],
            ),
        k < found.len() ==> found[k].name is None || (k < seen.len() && wanted(seen[k], expected)),
        zip_result(found, expected, k, outcome),
    ensures
        zip_extraction(bytes, expected, outcome),
{
    let names = Seq::new(
        found.len(),
        |i: int|
            if i < seen.len() {
                seen[i]
            } else {
                paths::possible_file_name(found[i].name->0)
            },
    );
    assert(zip_stops_at(found, names, expected, k));
    assert forall|i: int| 0 <= i < found.len() && found[i].name is Some implies paths::file_name_shown(
        (#[trigger] found[i]).name->0,
        names[i],
    ) by {
        paths::lemma_possible_file_name(found[i].name->0);
    }
    assert(zip_outcome(unzipped(bytes)->0, names, expected, outcome));
}

/// A path that ends, on every machine, with a file name that is the expected one
/// or is not.
pub open spec fn named(path: Seq<char>, expected: Seq<char>, hit: bool) -> bool {
    let path = paths::without_slashes(path);
    paths::ordinary(path) && hit == (text::lower(paths::last_segment(path)) == text::lower(
        expected,
    ))
}

/// The first file of a zip archive with the expected name is taken, whatever the
/// machine, where the names up to it are ordinary ones.
pub proof fn law_executable_is_found_in_zip(
    found: Seq<ZipEntry>,
    names: Seq<Option<Seq<char>>>,
    expected: Seq<char>,
    outcome: Result<Vec<u8>, AppError>,
    k: int,
)
    requires
        zip_outcome(found, names, expected, outcome),
        0 <= k < found.len(),
        forall|j: int|
            0 <= j <= k ==> (#[trigger] found[j]).name is Some && named(
                found[j].name->0,
                expected,
                j == k,
            ),
        found[k].data is Some,
    ensures
        outcome is Ok,
        outcome->Ok_0@ == found[k].data->0,
{
    let stop = choose|stop: int| #[trigger]
        zip_stops_at(found, names, expected, stop) && zip_result(found, expected, stop, outcome);
    assert(named(found[k].name->0, expected, true));
    assert(wanted(names[k], expected));
    if stop < k {
        assert(named(found[stop].name->0, expected, false));
        assert(!wanted(names[stop], expected));
    }
    assert(stop == k);
}

/// The first file of a tar archive with the expected name is taken, whatever the
/// machine, where the paths up to it are ordinary ones.
pub proof fn law_executable_is_found_in_tar(
    found: Seq<TarEntry>,
    listed: Seq<ListedEntry>,
    expected: Seq<char>,
    outcome: Result<Vec<u8>, AppError>,
    k: int,
)
    requires
        tar_outcome(found, listed, expected, outcome),
        0 <= k < found.len(),
        forall|j: int|
            0 <= j <= k ==> (#[trigger] found[j]) is Readable && found[j]->path is Some && named(
                found[j]->path->0,
                expected,
                j == k,
            ),
        found[k]->data is Some,
    ensures
        outcome is Ok,
        outcome->Ok_0@ == found[k]->data->0,
{
    let stop = choose|stop: int| #[trigger]
        stops_at(listed, expected, stop) && tar_result(found, listed, expected, stop, outcome);
    assert(tar_entry_shown(found[k], listed[k]));
    assert(!passed(listed[k], expected));
    if stop < k {
        assert(tar_entry_shown(found[stop], listed[stop]));
        assert(passed(listed[stop], expected));
    }
    assert(stop == k);
}

/// Where no file of a zip archive has the expected name, that is reported. An
/// entry that cannot be opened before the file is reported as such, and a file
/// whose contents cannot be read as not extracted.
pub proof fn law_zip_faults_are_reported(
    found: Seq<ZipEntry>,
    names: Seq<Option<Seq<char>>>,
    expected: Seq<char>,
    outcome: Result<Vec<u8>, AppError>,
    k: int,
)
    requires
        zip_outcome(found, names, expected, outcome),
        0 <= k <= found.len(),
        forall|j: int|
            0 <= j < k ==> (#[trigger] found[j]).name is Some && named(
                found[j].name->0,
                expected,
                false,
            ),
    ensures
        k == found.len() ==> (outcome matches Err(AppError::BinaryNotInArchive(name)) && name@
            == expected),
        k < found.len() && found[k].name is None ==> outcome == Err::<Vec<u8>, AppError>(
            AppError::UnreadableZipEntry,
        ),
        k < found.len() && found[k].name is Some && named(found[k].name->0, expected, true)
            && found[k].data is None ==> outcome == Err::<Vec<u8>, AppError>(
            AppError::ExtractionFailed,
        ),
{
    let stop = choose|stop: int| #[trigger]
        zip_stops_at(found, names, expected, stop) && zip_result(found, expected, stop, outcome);
    if stop < k {
        assert(named(found[stop].name->0, expected, false));
        assert(!wanted(names[stop], expected));
    }
    if k < found.len() && found[k].name is Some && named(found[k].name->0, expected, true) {
        assert(wanted(names[k], expected));
    }
    if k < stop {
        assert(found[k].name is Some);
    }
}

/// Where no file of a tar archive has the expected name, that is reported. An
/// entry that cannot be read before the file is reported as such, and a file whose
/// contents cannot be read as not extracted.
pub proof fn law_tar_faults_are_reported(
    found: Seq<TarEntry>,
    listed: Seq<ListedEntry>,
    expected: Seq<char>,
    outcome: Result<Vec<u8>, AppError>,
    k: int,
)
    requires
        tar_outcome(found, listed, expected, outcome),
        0 <= k <= found.len(),
        forall|j: int|
            0 <= j < k ==> (#[trigger] found[j]) is Readable && found[j]->path is Some && named(
                found[j]->path->0,
                expected,
                false,
            ),
    ensures
        k == found.len() ==> (outcome matches Err(AppError::BinaryNotInArchive(name)) && name@
            == expected),
        k < found.len() && found[k] is Unreadable ==> outcome == Err::<Vec<u8>, AppError>(
            AppError::UnreadableTarEntry,
        ),
        k < found.len() && found[k] is Readable && found[k]->path is Some && named(
            found[k]->path->0,
            expected,
            true,
        ) && found[k]->data is None ==> outcome == Err::<Vec<u8>, AppError>(
            AppError::ExtractionFailed,
        ),
{
    let stop = choose|stop: int| #[trigger]
        stops_at(listed, expected, stop) && tar_result(found, listed, expected, stop, outcome);
    if stop < k {
        assert(tar_entry_shown(found[stop], listed[stop]));
        assert(passed(listed[stop], expected));
    }
    if k < found.len() {
        assert(tar_entry_shown(found[k], listed[k]));
    }
    if k < stop {
        assert(passed(listed[k], expected));
    }
}

/// A file name is the expected one where they are the same in lower case.
pub proof fn law_file_names_are_compared_in_lower_case(name: Seq<char>, expected: Seq<char>)
    ensures
        wanted(Some(name), expected) <==> text::lower(name) == text::lower(expected),
        wanted(Some(expected), expected),
        !wanted(None, expected),
{
}

/// What comes of taking a runtime out of an archive.
pub open spec fn candidate_outcome(
    archive_name: Seq<char>,
    bytes: Seq<u8>,
    platform: Seq<char>,
    outcome: Result<Vec<u8>, AppError>,
) -> bool {
    let expected = runtime::executable_of(platform);
    if text::ends(archive_name, ".zip"@) {
        zip_extraction(bytes, expected, outcome)
    } else if text::ends(archive_name, ".tar.gz"@) || text::ends(archive_name, ".tgz"@) {
        tar_extraction(bytes, expected, outcome)
    } else {
        outcome == Err::<Vec<u8>, AppError>(AppError::UnsupportedArchive)
    }
}

/// An archive is read by the type that its name ends with, and the executable
/// that is looked for is the one of the platform. A name with another ending is
/// refused.
pub proof fn law_archives_are_read_by_their_type(
    head: Seq<char>,
    bytes: Seq<u8>,
    platform: Seq<char>,
    outcome: Result<Vec<u8>, AppError>,
)
    ensures
        candidate_outcome(head + ".zip"@, bytes, platform, outcome) <==> zip_extraction(
            bytes,
            runtime::executable_of(platform),
            outcome,
        ),
        candidate_outcome(head + ".tar.gz"@, bytes, platform, outcome) <==> tar_extraction(
            bytes,
            runtime::executable_of(platform),
            outcome,
        ),
        candidate_outcome(head + ".tgz"@, bytes, platform, outcome) <==> tar_extraction(
            bytes,
            runtime::executable_of(platform),
            outcome,
        ),
        !text::ends(head, ".zip"@) && !text::ends(head, ".tar.gz"@) && !text::ends(head, ".tgz"@)
            ==> (candidate_outcome(head, bytes, platform, outcome) <==> outcome == Err::<
            Vec<u8>,
            AppError,
        >(AppError::UnsupportedArchive)),
        unzipped(bytes) is None ==> (zip_extraction(
            bytes,
            runtime::executable_of(platform),
            outcome,
        ) <==> outcome == Err::<Vec<u8>, AppError>(AppError::UnreadableZip)),
        untarred(bytes) is None ==> (tar_extraction(
            bytes,
            runtime::executable_of(platform),
            outcome,
        ) <==> outcome == Err::<Vec<u8>, AppError>(AppError::UnreadableTar)),
{
    reveal_strlit(".zip");
    reveal_strlit(".tar.gz");
    reveal_strlit(".tgz");
    text::law_texts_begin_and_end(head, ".zip"@, ".zip"@);
    text::law_texts_begin_and_end(head, ".tar.gz"@, ".tar.gz"@);
    text::law_texts_begin_and_end(head, ".tgz"@, ".tgz"@);
    let gz = head + ".tar.gz"@;
    let tgz = head + ".tgz"@;
    assert(".zip"@.len() == 4);
    if text::ends(gz, ".zip"@) {
        assert(gz.skip(gz.len() - 4)[3] == gz[gz.len() - 1]);
    }
    if text::ends(tgz, ".zip"@) {
        assert(tgz.skip(tgz.len() - 4)[3] == tgz[tgz.len() - 1]);
    }
}

/// Takes a runtime out of a downloaded archive.
pub fn extract_runtime_candidate_from_bytes(archive_name: &str, bytes: &[u8]) -> (candidate: Result<
    RuntimeCandidate,
    AppError,
>)
    ensures
        if !runtime::release_name(archive_name@) {
            candidate matches Err(AppError::ArchiveNameFormat(name)) && name@ == archive_name@
        } else {
            match runtime::name_platform(archive_name@) {
                None => candidate == Err::<RuntimeCandidate, AppError>(
                    AppError::UnsupportedPlatform,
                ),
                Some(platform) => match candidate {
                    Ok(c) => c.version@ == runtime::name_version(archive_name@) && c.platform@
                        == platform && c.archive_name@ == archive_name@ && candidate_outcome(
                        archive_name@,
                        bytes@,
                        platform,
                        Ok(c.binary_bytes),
                    ),
                    Err(e) => candidate_outcome(archive_name@, bytes@, platform, Err(e)),
                },
            }
        },
{
    let (version, platform) = match parse_archive_name(archive_name) {
        Ok(parsed) => parsed,
        Err(e) => {
            return Err(e);
        },
    };
    let outcome = if text::ends_with(archive_name, ".zip") {
        extract_from_zip(bytes, platform.as_str())
    } else if text::ends_with(archive_name, ".tar.gz") || text::ends_with(archive_name, ".tgz") {
        extract_from_tar_gz(bytes, platform.as_str())
    } else {
        Err(AppError::UnsupportedArchive)
    };
    match outcome {
        Ok(binary_bytes) => Ok(
            RuntimeCandidate {
                version,
                platform,
                archive_name: archive_name.to_owned(),
                binary_bytes,
            },
        ),
        Err(e) => Err(e),
    }
}

} // verus!
