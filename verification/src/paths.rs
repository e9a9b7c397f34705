//! File paths, as texts.
//!
//! How a path divides into its parts depends on the platform: a slash divides it
//! everywhere, a backslash only on some platforms, and there a drive or a machine
//! may stand before the root. What is claimed here of `std::path` holds on every
//! platform. It is exact for paths that end with an ordinary name behind a slash;
//! for those that end with one behind a backslash it names the readings.

use vstd::prelude::*;
use vstd::string::StringExecFns;

use crate::error::AppError;
use crate::text;

verus! {

/// What stands after the last slash.
pub open spec fn last_segment(path: Seq<char>) -> Seq<char> {
    text::pieces(path, '/').last()
}

/// A character that separates parts of a path on some platform.
pub open spec fn separates(ch: char) -> bool {
    ch == '/' || ch == '\\' || ch == ':'
}

/// A text that divides no path on any platform.
pub open spec fn undivided(s: Seq<char>) -> bool {
    forall|i: int| 0 <= i < s.len() ==> !separates(#[trigger] s[i])
}

/// A file name that means the same on every platform.
pub open spec fn plain_name(name: Seq<char>) -> bool {
    &&& name.len() > 0
    &&& undivided(name)
    &&& name != seq!['.']
    &&& name != seq!['.', '.']
}

/// A path that begins with two separators, which some platforms read as the name
/// of a machine.
pub open spec fn doubled(path: Seq<char>) -> bool {
    path.len() >= 2 && separates(path[0]) && separates(path[1])
}

/// A path that ends with an ordinary name behind the last slash, and does not
/// begin with two separators.
pub open spec fn ordinary(path: Seq<char>) -> bool {
    plain_name(last_segment(path)) && !doubled(path)
}

/// The part of a path before its last slash.
pub open spec fn front(path: Seq<char>) -> Seq<char> {
    path.take(path.len() - last_segment(path).len() - 1)
}

/// An ordinary path in a directory whose name does not end in a way that some
/// platform reads as more than a name.
pub open spec fn in_directory(path: Seq<char>) -> bool {
    &&& ordinary(path)
    &&& last_segment(path).len() + 1 < path.len()
    &&& !separates(front(path).last())
    &&& front(path).last() != '.'
}

/// An ordinary path directly behind a colon and a slash, as under the root of a
/// drive.
pub open spec fn on_drive(path: Seq<char>) -> bool {
    &&& ordinary(path)
    &&& last_segment(path).len() + 1 < path.len()
    &&& front(path).last() == ':'
}

/// An ordinary path directly under the root.
pub open spec fn under_root(path: Seq<char>) -> bool {
    ordinary(path) && last_segment(path).len() + 1 == path.len()
}

/// The root, or no path at all.
pub open spec fn bare(path: Seq<char>) -> bool {
    path.len() == 0 || path == seq!['/']
}

/// A path that ends by going up, and does not begin with two separators.
pub open spec fn goes_up(path: Seq<char>) -> bool {
    last_segment(path) == seq!['.', '.'] && !doubled(path)
}

/// A path without slashes at its end.
pub open spec fn without_slashes(path: Seq<char>) -> Seq<char> {
    text::trimmed_end(path, |c: char| c == '/')
}

/// The directory of a path, where slashes at its end and repeated slashes before
/// its last name do not count.
pub open spec fn loose_front(path: Seq<char>) -> Seq<char> {
    without_slashes(front(without_slashes(path)))
}

/// As `in_directory`, but there may be slashes at the end, and more than one
/// before the last name.
pub open spec fn loosely_in_directory(path: Seq<char>) -> bool {
    &&& ordinary(without_slashes(path))
    &&& last_segment(without_slashes(path)).len() + 1 < without_slashes(path).len()
    &&& loose_front(path).len() > 0
    &&& !separates(loose_front(path).last())
    &&& loose_front(path).last() != '.'
}

/// A path that ends with an ordinary name behind a backslash. Some platforms
/// divide it there, others only at slashes.
pub open spec fn backslashed(path: Seq<char>, dir: Seq<char>, name: Seq<char>) -> bool {
    &&& path == dir + seq!['\\'] + name
    &&& plain_name(name)
    &&& dir.len() > 0 ==> dir.last() != '/' && dir.last() != '\\' && dir.last() != '.'
}

/// A path with an ordinary name at its end, behind a slash, a backslash or
/// nothing, that does not begin with two separators.
pub open spec fn settled(path: Seq<char>) -> bool {
    !doubled(path) && (ordinary(path) || exists|dir: Seq<char>, name: Seq<char>|
        backslashed(path, dir, name))
}

/// `part` stands in `s`, from the given position on.
pub open spec fn stands_at(s: Seq<char>, part: Seq<char>, at: int) -> bool {
    0 <= at <= s.len() - part.len() && s.subrange(at, at + part.len()) == part
}

/// `part` stands somewhere in `s`.
pub open spec fn occurs(s: Seq<char>, part: Seq<char>) -> bool {
    exists|at: int| stands_at(s, part, at)
}

/// What is known of the file name of a path on every platform. It is not empty,
/// and it stands in the path. Slashes at the end, as of a directory, do not count.
/// Of a path with an ordinary name behind a backslash it is that name, or all that
/// follows the last slash.
pub open spec fn file_name_shown(path: Seq<char>, file_name: Option<Seq<char>>) -> bool {
    &&& ordinary(without_slashes(path)) ==> file_name == Some(
        last_segment(without_slashes(path)),
    )
    &&& bare(path) || goes_up(path) ==> file_name is None
    &&& forall|dir: Seq<char>, name: Seq<char>| #[trigger]
        backslashed(path, dir, name) ==> file_name == Some(name) || file_name == Some(
            last_segment(path),
        ) || (doubled(path) && file_name is None)
    &&& match file_name {
        Some(name) => name.len() > 0 && occurs(path, name) && (doubled(path) || !name.contains('/')),
        None => true,
    }
}

/// A file name that a path can have on some machine.
pub open spec fn possible_file_name(path: Seq<char>) -> Option<Seq<char>> {
    if ordinary(without_slashes(path)) || exists|dir: Seq<char>, name: Seq<char>|
        backslashed(path, dir, name) {
        Some(last_segment(without_slashes(path)))
    } else {
        None
    }
}

/// The last segment ends the path, holds no slash, and stands behind one unless
/// it is the whole path.
proof fn lemma_last_segment(path: Seq<char>)
    ensures
        text::ends(path, last_segment(path)),
        !last_segment(path).contains('/'),
        last_segment(path).len() < path.len() ==> path[path.len() - last_segment(path).len() - 1]
            == '/',
        !path.contains('/') ==> last_segment(path) == path,
    decreases path.len(),
{
    let seg = last_segment(path);
    if path.len() == 0 {
        assert(path =~= Seq::<char>::empty());
        assert(path.skip(0) =~= seg);
    } else {
        let init = path.drop_last();
        lemma_last_segment(init);
        text::lemma_pieces_nonempty(init, '/');
        if path.last() == '/' {
            assert(seg =~= Seq::<char>::empty());
            assert(path.skip(path.len() as int) =~= seg);
            assert(path[path.len() - 1] == '/');
        } else {
            let before = last_segment(init);
            assert(seg =~= before.push(path.last()));
            assert(init.skip(init.len() - before.len()) == before);
            assert forall|i: int| 0 <= i < seg.len() implies seg[i] == path.skip(
                path.len() - seg.len(),
            )[i] by {
                if i < before.len() {
                    assert(init.skip(init.len() - before.len())[i] == before[i]);
                }
            }
            assert(path.skip(path.len() - seg.len()) =~= seg);
            assert forall|i: int| 0 <= i < seg.len() implies seg[i] != '/' by {
                if i < before.len() {
                    assert(before.contains(before[i]));
                }
            }
            if !path.contains('/') {
                assert forall|i: int| 0 <= i < init.len() implies init[i] != '/' by {
                    assert(path[i] == init[i]);
                }
                assert(seg =~= path);
            }
        }
    }
}

proof fn lemma_without_slashes(path: Seq<char>)
    ensures
        text::begins(path, without_slashes(path)),
    decreases path.len(),
{
    if path.len() > 0 && path.last() == '/' {
        let init = path.drop_last();
        lemma_without_slashes(init);
        let k = without_slashes(init).len() as int;
        assert(path.take(k) =~= init.take(k));
    } else {
        assert(path.take(path.len() as int) =~= path);
    }
}

/// Every path can have some file name, or none.
pub proof fn lemma_possible_file_name(path: Seq<char>)
    ensures
        file_name_shown(path, possible_file_name(path)),
{
    let trimmed = without_slashes(path);
    let seg = last_segment(trimmed);
    reveal_with_fuel(text::trimmed_end, 3);
    lemma_last_segment(trimmed);
    lemma_without_slashes(path);
    if path == seq!['/'] {
        assert(path.drop_last() =~= Seq::<char>::empty());
    }
    if bare(path) {
        assert(trimmed =~= Seq::<char>::empty());
    }
    if goes_up(path) && path.last() == '/' {
        assert(text::pieces(path, '/').last() =~= Seq::<char>::empty());
    }
    assert forall|dir: Seq<char>, name: Seq<char>| #[trigger]
        backslashed(path, dir, name) implies trimmed == path && !ordinary(path) && !bare(path)
        && !goes_up(path) && seg.len() > 0 by {
        lemma_backslash_in_segment(path, dir, name);
    }
    let start = trimmed.len() - seg.len();
    assert(path.subrange(start, start + seg.len()) =~= trimmed.skip(start));
    assert(stands_at(path, seg, start));
}

/// Where a backslash divides a path, it stands in its last segment.
proof fn lemma_backslash_in_segment(path: Seq<char>, dir: Seq<char>, name: Seq<char>)
    requires
        backslashed(path, dir, name),
    ensures
        last_segment(path).len() > name.len(),
        last_segment(path).contains('\\'),
        without_slashes(path) == path,
{
    let seg = last_segment(path);
    lemma_last_segment(path);
    assert(path.last() == name.last());
    assert(!separates(name[name.len() - 1]));
    assert(path[dir.len() as int] == '\\');
    if seg.len() <= name.len() {
        let i = path.len() - seg.len() - 1;
        assert(path[i] == '/');
        if i > dir.len() {
            assert(path[i] == name[i - dir.len() - 1]);
        }
    }
    let at = dir.len() - (path.len() - seg.len());
    assert(path.skip(path.len() - seg.len())[at] == path[dir.len() as int]);
    assert(seg[at] == '\\');
}

proof fn lemma_ordinary_ends_with_name(path: Seq<char>)
    requires
        ordinary(path),
    ensures
        without_slashes(path) == path,
{
    if path.len() > 0 && path.last() == '/' {
        assert(text::pieces(path, '/').last() =~= Seq::<char>::empty());
    }
}

/// The parent of a path whose last name holds a backslash, where only slashes
/// divide it.
pub open spec fn slash_parent(path: Seq<char>, parent: Seq<char>) -> bool {
    &&& !path.contains('/') ==> parent == Seq::<char>::empty()
    &&& path.contains('/') && front(path).len() == 0 ==> parent == seq!['/']
    &&& path.contains('/') && front(path).len() > 0 && front(path).last() != '/'
        && front(path).last() != '.' ==> parent == front(path)
}

/// The parent of a path with an ordinary name behind a backslash: what stands
/// before the backslash, with the backslash itself at a root, or what it is where
/// only slashes divide the path.
pub open spec fn backslashed_parent(
    path: Seq<char>,
    dir: Seq<char>,
    parent: Seq<char>,
) -> bool {
    ||| parent == dir
    ||| (dir.len() == 0 || dir.last() == ':' || doubled(path)) && parent == dir.push('\\')
    ||| slash_parent(path, parent)
}

/// What is known of the parent of a path on every platform. It is a beginning of
/// the path, and shorter.
pub open spec fn parent_shown(path: Seq<char>, parent: Option<Seq<char>>) -> bool {
    &&& bare(path) ==> parent is None
    &&& under_root(path) ==> parent == Some(seq!['/'])
    &&& plain_name(path) ==> parent == Some(Seq::<char>::empty())
    &&& in_directory(path) ==> parent == Some(front(path))
    &&& on_drive(path) ==> parent == Some(front(path)) || parent == Some(front(path).push('/'))
    &&& loosely_in_directory(path) ==> (parent matches Some(p) && without_slashes(p) == loose_front(
        path,
    ))
    &&& forall|dir: Seq<char>, name: Seq<char>| #[trigger]
        backslashed(path, dir, name) ==> match parent {
            Some(p) => backslashed_parent(path, dir, p),
            None => doubled(path),
        }
    &&& match parent {
        Some(p) => text::begins(path, p) && p.len() < path.len(),
        None => true,
    }
}

/// A name that no platform reads as leading elsewhere than to the directory that
/// it is put behind, or to something in it.
pub open spec fn stays_inside(name: Seq<char>) -> bool {
    plain_name(name) || (name.len() > 0 && name[0] == '.' && !name.contains('/'))
}

/// What is known on every platform of the path with another file name. It ends
/// with that name, and is the same up to the separator that the platform writes,
/// where the platforms agree on the directory.
pub open spec fn renamed_path(path: Seq<char>, name: Seq<char>, out: Seq<char>) -> bool {
    &&& plain_name(path) && stays_inside(name) ==> out == name
    &&& under_root(path) && stays_inside(name) ==> out == seq!['/'] + name
    &&& (in_directory(path) || on_drive(path)) && stays_inside(name) ==> out == front(path)
        + seq!['/'] + name || out == front(path) + seq!['\\'] + name
    &&& loosely_in_directory(path) && stays_inside(name) ==> text::begins(out, loose_front(path))
    &&& stays_inside(name) && !doubled(path) ==> text::ends(out, name) && forall|
        dir: Seq<char>,
        old_name: Seq<char>,
    | #[trigger]
        backslashed(path, dir, old_name) ==> out == dir + seq!['\\'] + name || (if path.contains(
            '/',
        ) {
            text::ends(out, seq!['/'] + name)
        } else {
            out == name
        })
    &&& plain_name(name) ==> text::ends(out, name)
}

/// Calls `std::path::Path::file_name`: the final component, which for an
/// ordinary path is what follows the last slash. Slashes at the end of the path
/// do not count. The root has no file name, nor has the empty path or one that
/// ends in `..`. Where a backslash stands before an ordinary name at the end, it
/// is that name on the platforms that divide a path there, and what follows the
/// last slash on the others. Which of them runs, and so which it is, is left
/// unsaid.
#[verifier::external_body]
pub(crate) fn path_file_name(path: &str) -> (file_name: Option<String>)
    ensures
        file_name_shown(path@, text::text_option(file_name)),
{
    std::path::Path::new(path).file_name().and_then(|name| name.to_str()).map(str::to_owned)
}

/// Calls `std::path::Path::parent`: the path without its final component. There
/// is none for the root and for the empty path, it is empty for a single name,
/// and for an ordinary path in a directory or under the root it is that directory
/// or the root. Slashes at the end and repeated slashes do not count. Where a
/// backslash stands before an ordinary name at the end, it is what precedes the
/// backslash, or the directory by the slashes alone. It is always a beginning of
/// the path. Which platform runs is left unsaid.
#[verifier::external_body]
fn path_parent(path: &str) -> (parent: Option<String>)
    ensures
        parent_shown(path@, text::text_option(parent)),
{
    std::path::Path::new(path).parent().and_then(|parent| parent.to_str()).map(str::to_owned)
}

/// Calls `std::path::Path::with_file_name`: the new name on its own for a single
/// name, behind the root for an ordinary path under the root, and behind the
/// directory and a separator for one in a directory. Where a backslash stands
/// before the last name, the new name takes the place of that name, or of all
/// that follows the last slash. A name that begins with a dot and holds no slash
/// leads to no root, so it is put behind the directory on every platform.
#[verifier::external_body]
fn path_with_file_name(path: &str, name: &str) -> (out: String)
    ensures
        renamed_path(path@, name@, out@),
{
    std::path::Path::new(path).with_file_name(name).to_string_lossy().into_owned()
}

/// The parent of a path where it is not empty.
pub fn nonempty_parent(parent: Option<String>) -> (out: Option<String>)
    ensures
        text::text_option(out) == match parent {
            Some(p) => if p@.len() > 0 {
                Some(p@)
            } else {
                None
            },
            None => None,
        },
{
    match parent {
        Some(p) => if text::chars_of(p.as_str()).len() > 0 {
            Some(p)
        } else {
            None
        },
        None => None,
    }
}

/// `parent` is the parent of a path, and not empty.
pub open spec fn has_parent(path: Seq<char>, parent: Seq<char>) -> bool {
    parent.len() > 0 && parent_shown(path, Some(parent))
}

/// A path may have no parent, or an empty one.
pub open spec fn lacks_parent(path: Seq<char>) -> bool {
    parent_shown(path, None) || parent_shown(path, Some(Seq::<char>::empty()))
}

/// The directory that a file is in.
pub fn containing_directory(path: &str) -> (directory: Result<String, AppError>)
    ensures
        match directory {
            Ok(dir) => has_parent(path@, dir@),
            Err(e) => lacks_parent(path@) && (e matches AppError::NoContainingDirectory(shown)
                && shown@ == path@),
        },
        directory matches Ok(dir) ==> text::begins(path@, dir@) && 0 < dir@.len() < path@.len(),
        in_directory(path@) ==> directory is Ok && directory->Ok_0@ == front(path@),
        under_root(path@) ==> directory is Ok && directory->Ok_0@ == seq!['/'],
        on_drive(path@) ==> directory is Ok && (directory->Ok_0@ == front(path@)
            || directory->Ok_0@ == front(path@).push('/')),
        loosely_in_directory(path@) ==> directory is Ok && without_slashes(directory->Ok_0@)
            == loose_front(path@),
        forall|dir: Seq<char>, name: Seq<char>| #[trigger]
            backslashed(path@, dir, name) ==> (directory matches Ok(shown) ==> backslashed_parent(
                path@,
                dir,
                shown@,
            )),
        plain_name(path@) ==> directory is Err,
        bare(path@) ==> directory is Err,
{
    let parent = path_parent(path);
    let ghost known = text::text_option(parent);
    assert(parent_shown(path@, known));
    match nonempty_parent(parent) {
        Some(dir) => {
            assert(known == Some(dir@));
            Ok(dir)
        },
        None => {
            assert(known is None || known == Some(Seq::<char>::empty()));
            Err(AppError::NoContainingDirectory(path.to_owned()))
        },
    }
}

/// The directory that a file to be written atomically is in.
pub fn atomic_directory(path: &str) -> (directory: Result<String, AppError>)
    ensures
        match directory {
            Ok(dir) => has_parent(path@, dir@),
            Err(e) => lacks_parent(path@) && (e matches AppError::AtomicPathWithoutParent(shown)
                && shown@ == path@),
        },
        directory matches Ok(dir) ==> text::begins(path@, dir@) && 0 < dir@.len() < path@.len(),
        in_directory(path@) ==> directory is Ok && directory->Ok_0@ == front(path@),
        under_root(path@) ==> directory is Ok && directory->Ok_0@ == seq!['/'],
        on_drive(path@) ==> directory is Ok && (directory->Ok_0@ == front(path@)
            || directory->Ok_0@ == front(path@).push('/')),
        loosely_in_directory(path@) ==> directory is Ok && without_slashes(directory->Ok_0@)
            == loose_front(path@),
        forall|dir: Seq<char>, name: Seq<char>| #[trigger]
            backslashed(path@, dir, name) ==> (directory matches Ok(shown) ==> backslashed_parent(
                path@,
                dir,
                shown@,
            )),
        plain_name(path@) ==> directory is Err,
        bare(path@) ==> directory is Err,
{
    let parent = path_parent(path);
    let ghost known = text::text_option(parent);
    assert(parent_shown(path@, known));
    match nonempty_parent(parent) {
        Some(dir) => {
            assert(known == Some(dir@));
            Ok(dir)
        },
        None => {
            assert(known is None || known == Some(Seq::<char>::empty()));
            Err(AppError::AtomicPathWithoutParent(path.to_owned()))
        },
    }
}

/// The name of a file beside another one.
pub open spec fn sidecar(file_name: Seq<char>, suffix: Seq<char>) -> Seq<char> {
    seq!['.'] + file_name + seq!['.'] + suffix
}

/// The name of a file beside another one.
pub fn sidecar_name(file_name: &str, suffix: &str) -> (name: String)
    ensures
        name@ == sidecar(file_name@, suffix@),
        name@ == seq!['.'] + file_name@ + seq!['.'] + suffix@,
{
    let mut name: String = String::new();
    name.push('.');
    name.append(file_name);
    name.push('.');
    name.append(suffix);
    assert(name@ =~= sidecar(file_name@, suffix@));
    name
}

/// `out` is the path of a file beside another one.
pub open spec fn stands_beside(path: Seq<char>, suffix: Seq<char>, out: Seq<char>) -> bool {
    exists|name: Seq<char>| #[trigger]
        file_name_shown(path, Some(name)) && renamed_path(path, sidecar(name, suffix), out)
}

/// The path of a file beside one with an ordinary name behind a backslash: the
/// name by either reading of the path, in the directory by either reading.
pub open spec fn beside_backslashed(
    path: Seq<char>,
    dir: Seq<char>,
    name: Seq<char>,
    suffix: Seq<char>,
    out: Seq<char>,
) -> bool {
    let by_backslash = sidecar(name, suffix);
    let by_slash = sidecar(last_segment(path), suffix);
    ||| out == dir + seq!['\\'] + by_backslash
    ||| out == dir + seq!['\\'] + by_slash
    ||| path.contains('/') && (text::ends(out, seq!['/'] + by_backslash) || text::ends(
        out,
        seq!['/'] + by_slash,
    ))
    ||| !path.contains('/') && (out == by_backslash || out == by_slash)
}

/// The path of a file beside another one.
pub fn atomic_sidecar_path(path: &str, suffix: &str) -> (beside: Result<String, AppError>)
    ensures
        match beside {
            Ok(out) => stands_beside(path@, suffix@, out@),
            Err(e) => file_name_shown(path@, None) && (e matches AppError::InvalidAtomicPath(shown)
                && shown@ == path@),
        },
        ordinary(path@) ==> beside is Ok && renamed_path(
            path@,
            sidecar(last_segment(path@), suffix@),
            beside->Ok_0@,
        ),
        settled(path@) ==> beside is Ok,
        settled(path@) && undivided(suffix@) ==> beside->Ok_0@ != path@,
        forall|dir: Seq<char>, name: Seq<char>| #[trigger]
            backslashed(path@, dir, name) && !doubled(path@) && undivided(suffix@) ==> beside is Ok
                && beside_backslashed(path@, dir, name, suffix@, beside->Ok_0@),
        !doubled(path@) && undivided(suffix@) ==> (beside matches Ok(out) ==> text::ends(
            out@,
            seq!['.'] + suffix@,
        )),
        bare(path@) || goes_up(path@) ==> beside is Err,
{
    let file_name = path_file_name(path);
    let ghost known = text::text_option(file_name);
    assert(file_name_shown(path@, known));
    proof {
        if ordinary(path@) {
            lemma_ordinary_ends_with_name(path@);
        }
    }
    match file_name {
        Some(name) => {
            assert(known == Some(name@));
            let beside = path_with_file_name(path, sidecar_name(name.as_str(), suffix).as_str());
            proof {
                if !doubled(path@) && undivided(suffix@) {
                    lemma_sidecar_stays_inside(name@, suffix@);
                    lemma_sidecar_ends(name@, suffix@, beside@);
                    if settled(path@) {
                        lemma_sidecar_is_another(path@, name@, suffix@, beside@);
                    }
                }
            }
            Ok(beside)
        },
        None => Err(AppError::InvalidAtomicPath(path.to_owned())),
    }
}

proof fn lemma_sidecar_stays_inside(name: Seq<char>, suffix: Seq<char>)
    requires
        !name.contains('/'),
        undivided(suffix),
    ensures
        stays_inside(sidecar(name, suffix)),
        !sidecar(name, suffix).contains('/'),
{
    let s = sidecar(name, suffix);
    assert(s[0] == '.');
    assert forall|i: int| 0 <= i < s.len() implies s[i] != '/' by {
        if 1 <= i <= name.len() {
            assert(s[i] == name[i - 1]);
            assert(name.contains(name[i - 1]));
        } else if i > name.len() + 1 {
            assert(s[i] == suffix[i - name.len() - 2]);
        }
    }
}

proof fn lemma_sidecar_ends(name: Seq<char>, suffix: Seq<char>, out: Seq<char>)
    requires
        text::ends(out, sidecar(name, suffix)),
    ensures
        text::ends(out, seq!['.'] + suffix),
{
    let s = sidecar(name, suffix);
    let tail = seq!['.'] + suffix;
    assert forall|i: int| 0 <= i < tail.len() implies out.skip(out.len() - tail.len())[i]
        == tail[i] by {
        assert(out.skip(out.len() - s.len())[i + name.len() + 1] == s[i + name.len() + 1]);
    }
    assert(out.skip(out.len() - tail.len()) =~= tail);
}

/// A path beside another one is another path: the file's name stands behind a
/// separator or is the whole path, and no separator stands in the longer name.
proof fn lemma_sidecar_is_another(
    path: Seq<char>,
    name: Seq<char>,
    suffix: Seq<char>,
    out: Seq<char>,
)
    requires
        settled(path),
        undivided(suffix),
        file_name_shown(path, Some(name)),
        renamed_path(path, sidecar(name, suffix), out),
    ensures
        out != path,
{
    let s = sidecar(name, suffix);
    lemma_sidecar_stays_inside(name, suffix);
    lemma_last_segment(path);
    if ordinary(path) {
        lemma_ordinary_ends_with_name(path);
    } else {
        let (dir, plain) = choose|dir: Seq<char>, plain: Seq<char>| backslashed(path, dir, plain);
        assert(backslashed(path, dir, plain));
        assert(path[dir.len() as int] == '\\');
    }
    if out == path {
        let at = path.len() - name.len() - 1;
        let inside = s.len() - name.len() - 1;
        assert(path.skip(path.len() - s.len())[inside] == path[at]);
        assert(s[inside] == path[at]);
        if name == last_segment(path) {
            assert(path[at] == '/');
            assert(s.contains(s[inside]));
        } else {
            assert(plain_name(name));
            if 1 <= inside <= name.len() {
                assert(s[inside] == name[inside - 1]);
            } else if inside > name.len() + 1 {
                assert(s[inside] == suffix[inside - name.len() - 2]);
            }
        }
    }
}

/// The temporary file, the backup and the file itself have different paths.
pub proof fn law_sidecar_paths_differ(path: Seq<char>, temporary: Seq<char>, backup: Seq<char>)
    requires
        !doubled(path),
        stands_beside(path, "temporary"@, temporary),
        stands_beside(path, "backup"@, backup),
    ensures
        temporary != backup,
        settled(path) ==> temporary != path && backup != path,
{
    reveal_strlit("temporary");
    reveal_strlit("backup");
    let first = choose|name: Seq<char>| #[trigger]
        file_name_shown(path, Some(name)) && renamed_path(
            path,
            sidecar(name, "temporary"@),
            temporary,
        );
    let second = choose|name: Seq<char>| #[trigger]
        file_name_shown(path, Some(name)) && renamed_path(path, sidecar(name, "backup"@), backup);
    assert(undivided("temporary"@));
    assert(undivided("backup"@));
    lemma_sidecar_stays_inside(first, "temporary"@);
    lemma_sidecar_ends(first, "temporary"@, temporary);
    lemma_sidecar_stays_inside(second, "backup"@);
    lemma_sidecar_ends(second, "backup"@, backup);
    assert(temporary.skip(temporary.len() - 10)[9] == 'y');
    assert(backup.skip(backup.len() - 7)[6] == 'p');
    if settled(path) {
        lemma_sidecar_is_another(path, first, "temporary"@, temporary);
        lemma_sidecar_is_another(path, second, "backup"@, backup);
    }
}

/// The name of an archive file.
pub fn archive_file_name(archive_path: &str) -> (name: Result<String, AppError>)
    ensures
        match name {
            Ok(n) => file_name_shown(archive_path@, Some(n@)),
            Err(e) => file_name_shown(archive_path@, None) && e == AppError::InvalidArchivePath,
        },
        ordinary(archive_path@) ==> name is Ok && name->Ok_0@ == last_segment(archive_path@),
        forall|dir: Seq<char>, plain: Seq<char>| #[trigger]
            backslashed(archive_path@, dir, plain) && !doubled(archive_path@) ==> name is Ok && (
            name->Ok_0@ == plain || name->Ok_0@ == last_segment(archive_path@)),
        name matches Ok(n) ==> n@.len() > 0 && occurs(archive_path@, n@),
        bare(archive_path@) || goes_up(archive_path@) ==> name is Err,
{
    proof {
        if ordinary(archive_path@) {
            lemma_ordinary_ends_with_name(archive_path@);
        }
    }
    match path_file_name(archive_path) {
        Some(name) => Ok(name),
        None => Err(AppError::InvalidArchivePath),
    }
}

/// The temporary file and the backup of a file, and the file itself, have
/// different names, and those are ordinary names if the file's name is one.
pub proof fn law_sidecars_differ(file_name: Seq<char>)
    ensures
        sidecar(file_name, "temporary"@) != file_name,
        sidecar(file_name, "backup"@) != file_name,
        sidecar(file_name, "temporary"@) != sidecar(file_name, "backup"@),
        plain_name(file_name) ==> plain_name(sidecar(file_name, "temporary"@)) && plain_name(
            sidecar(file_name, "backup"@),
        ),
{
    reveal_strlit("temporary");
    reveal_strlit("backup");
    let a = sidecar(file_name, "temporary"@);
    let b = sidecar(file_name, "backup"@);
    assert("temporary"@.len() == 9);
    assert("backup"@.len() == 6);
    assert(a.len() == file_name.len() + 11);
    assert(b.len() == file_name.len() + 8);
    if plain_name(file_name) {
        lemma_sidecar_plain(file_name, "temporary"@);
        lemma_sidecar_plain(file_name, "backup"@);
    }
}

proof fn lemma_sidecar_plain(file_name: Seq<char>, suffix: Seq<char>)
    requires
        plain_name(file_name),
        suffix.len() > 0,
        undivided(suffix),
    ensures
        plain_name(sidecar(file_name, suffix)),
{
    let s = sidecar(file_name, suffix);
    assert forall|i: int| 0 <= i < s.len() implies !separates(#[trigger] s[i]) by {
        if 1 <= i <= file_name.len() {
            assert(s[i] == file_name[i - 1]);
        } else if i > file_name.len() + 1 {
            assert(s[i] == suffix[i - file_name.len() - 2]);
        }
    }
    assert(s.len() > 2);
}

} // verus!
