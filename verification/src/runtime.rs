//! The installed runtimes: their names and ids, which one is current, which
//! ones are in use, and which ones can be deleted.

use vstd::prelude::*;
use vstd::string::StringExecFns;

use crate::clock;
use crate::error::AppError;
use crate::settings::AppSettings;
use crate::settings::SettingsView;
use crate::text;
use crate::text_map;
use crate::text_map::order_texts;
use crate::text_map::TextMap;
use crate::text_map::TextOrder;

verus! {

/// The version of the runtime that comes with the application.
pub const DEFAULT_VERSION: &'static str = "v0.67.0";

/// The archive name recorded for the runtime that comes with the application.
pub const SEED_ARCHIVE_NAME: &'static str = "bundled-frpc";

/// An installed runtime.
pub struct RuntimeInfo {
    pub id: String,
    pub version: String,
    pub platform: String,
    pub imported_at: String,
    pub archive_name: String,
    pub binary_path: String,
    pub is_current: bool,
    pub is_in_use: bool,
    pub can_delete: bool,
}

impl Clone for RuntimeInfo {
    fn clone(&self) -> (copy: Self)
        ensures
            copy == *self,
    {
        RuntimeInfo {
            id: self.id.clone(),
            version: self.version.clone(),
            platform: self.platform.clone(),
            imported_at: self.imported_at.clone(),
            archive_name: self.archive_name.clone(),
            binary_path: self.binary_path.clone(),
            is_current: self.is_current,
            is_in_use: self.is_in_use,
            can_delete: self.can_delete,
        }
    }
}

/// A runtime taken out of an archive, to be installed.
pub struct RuntimeCandidate {
    pub version: String,
    pub platform: String,
    pub archive_name: String,
    pub binary_bytes: Vec<u8>,
}

/// A version without the letters `v` before it.
pub open spec fn bare_version(version: Seq<char>) -> Seq<char> {
    text::trimmed_start(version, |c: char| c == 'v')
}

/// The platform of an operating system and an architecture in release names.
pub open spec fn platform_of(os: Seq<char>, arch: Seq<char>) -> Option<Seq<char>> {
    if (os == "darwin"@ || os == "windows"@) && (arch == "amd64"@ || arch == "arm64"@) {
        Some(
            os + "-"@ + if arch == "amd64"@ {
                "x64"@
            } else {
                "arm64"@
            },
        )
    } else {
        None
    }
}

/// The parts of a release name between the underscores, without the file type.
pub open spec fn name_parts(name: Seq<char>) -> Seq<Seq<char>> {
    text::pieces(
        text::without_tail(
            text::without_tail(text::without_tail(name, ".tar.gz"@), ".tgz"@),
            ".zip"@,
        ),
        '_',
    )
}

/// The name has the form of a release name.
pub open spec fn release_name(name: Seq<char>) -> bool {
    name_parts(name).len() >= 4 && name_parts(name)[0] == "frp"@
}

/// The platform that a release name tells.
pub open spec fn name_platform(name: Seq<char>) -> Option<Seq<char>> {
    platform_of(name_parts(name)[2], name_parts(name)[3])
}

/// The version that a release name tells.
pub open spec fn name_version(name: Seq<char>) -> Seq<char> {
    "v"@ + bare_version(name_parts(name)[1])
}

/// The id of a version for a platform.
pub open spec fn id_of(version: Seq<char>, platform: Seq<char>) -> Seq<char> {
    bare_version(version) + "_"@ + platform
}

/// The platform of an operating system and an architecture in release names.
pub fn normalize_platform(os: &str, arch: &str) -> (platform: Option<String>)
    ensures
        text::text_option(platform) == platform_of(os@, arch@),
{
    if !text::same_text(os, "darwin") && !text::same_text(os, "windows") {
        return None;
    }
    let tail = if text::same_text(arch, "amd64") {
        "x64"
    } else if text::same_text(arch, "arm64") {
        "arm64"
    } else {
        return None;
    };
    let mut out: String = text::joined(os, "-");
    out.append(tail);
    Some(out)
}

fn archive_parts(name: &str) -> (parts: Vec<String>)
    ensures
        text::texts(parts@) == name_parts(name@),
        parts@.len() == name_parts(name@).len(),
        forall|i: int| 0 <= i < parts@.len() ==> (#[trigger] parts@[i])@ == name_parts(name@)[i],
        parts@.len() >= 1,
{
    let clean = text::trim_tail(name, ".tar.gz");
    let clean = text::trim_tail(clean.as_str(), ".tgz");
    let clean = text::trim_tail(clean.as_str(), ".zip");
    let parts = text::split_text(clean.as_str(), '_');
    assert(parts@.len() == text::texts(parts@).len());
    assert forall|i: int| 0 <= i < parts@.len() implies (#[trigger] parts@[i])@ == name_parts(
        name@,
    )[i] by {
        assert(text::texts(parts@)[i] == parts@[i]@);
    }
    parts
}

/// The version and the platform that an archive's name tells.
pub fn parse_archive_name(archive_name: &str) -> (parsed: Result<(String, String), AppError>)
    ensures
        match parsed {
            Ok((version, platform)) => release_name(archive_name@) && version@ == name_version(
                archive_name@,
            ) && Some(platform@) == name_platform(archive_name@),
            Err(e) => if !release_name(archive_name@) {
                e matches AppError::ArchiveNameFormat(name) && name@ == archive_name@
            } else {
                name_platform(archive_name@) is None && e == AppError::UnsupportedPlatform
            },
        },
{
    let parts = archive_parts(archive_name);
    if parts.len() < 4 || !text::same_text(parts[0].as_str(), "frp") {
        return Err(AppError::ArchiveNameFormat(archive_name.to_owned()));
    }
    let version = text::joined("v", text::trim_start_char(parts[1].as_str(), 'v').as_str());
    match normalize_platform(parts[2].as_str(), parts[3].as_str()) {
        Some(platform) => Ok((version, platform)),
        None => Err(AppError::UnsupportedPlatform),
    }
}

/// The platform of a release asset, where it is a supported one.
pub fn platform_from_asset_name(name: &str) -> (platform: Option<String>)
    ensures
        text::text_option(platform) == if release_name(name@) {
            name_platform(name@)
        } else {
            None
        },
{
    let parts = archive_parts(name);
    if parts.len() < 4 || !text::same_text(parts[0].as_str(), "frp") {
        return None;
    }
    normalize_platform(parts[2].as_str(), parts[3].as_str())
}

/// The platform of a machine; `target_os` and `target_arch` as the compiler
/// names them.
pub open spec fn machine_platform(target_os: Seq<char>, target_arch: Seq<char>) -> Seq<char> {
    let os = if target_os == "macos"@ {
        "darwin"@
    } else if target_os == "windows"@ {
        "windows"@
    } else {
        "unsupported"@
    };
    os + "-"@ + if target_arch == "aarch64"@ {
        "arm64"@
    } else {
        "x64"@
    }
}

/// The platform of a machine.
pub fn current_platform(target_os: &str, target_arch: &str) -> (platform: String)
    ensures
        platform@ == machine_platform(target_os@, target_arch@),
{
    let os = if text::same_text(target_os, "macos") {
        "darwin"
    } else if text::same_text(target_os, "windows") {
        "windows"
    } else {
        "unsupported"
    };
    let arch = if text::same_text(target_arch, "aarch64") {
        "arm64"
    } else {
        "x64"
    };
    let mut out: String = text::joined(os, "-");
    out.append(arch);
    out
}

/// The id of a version for a platform.
pub fn runtime_id(version: &str, platform: &str) -> (id: String)
    ensures
        id@ == id_of(version@, platform@),
        id@ == bare_version(version@) + "_"@ + platform@,
{
    let mut id: String = text::joined(text::trim_start_char(version, 'v').as_str(), "_");
    id.append(platform);
    id
}

/// The name of the executable on this machine.
pub fn binary_name(target_os: &str) -> (name: &'static str)
    ensures
        name@ == if target_os@ == "windows"@ {
            "frpc.exe"@
        } else {
            "frpc"@
        },
{
    if text::same_text(target_os, "windows") {
        "frpc.exe"
    } else {
        "frpc"
    }
}

/// The name of the executable on a platform.
pub open spec fn executable_of(platform: Seq<char>) -> Seq<char> {
    if text::begins(platform, "windows-"@) {
        "frpc.exe"@
    } else {
        "frpc"@
    }
}

/// The name of the executable on a platform.
pub fn binary_name_for_platform(platform: &str) -> (name: &'static str)
    ensures
        name@ == executable_of(platform@),
{
    if text::begins_with(platform, "windows-") {
        "frpc.exe"
    } else {
        "frpc"
    }
}

/// A release name that tells a platform at all tells one of the supported ones.
pub proof fn law_platforms_are_supported(name: Seq<char>)
    ensures
        (release_name(name) && name_platform(name) is Some) ==> (name_platform(name)->0
            == "darwin-x64"@ || name_platform(name)->0 == "darwin-arm64"@ || name_platform(name)->0
            == "windows-x64"@ || name_platform(name)->0 == "windows-arm64"@),
{
    lemma_platform_texts();
}

proof fn lemma_platform_texts()
    ensures
        "darwin"@ + "-"@ + "x64"@ == "darwin-x64"@,
        "darwin"@ + "-"@ + "arm64"@ == "darwin-arm64"@,
        "windows"@ + "-"@ + "x64"@ == "windows-x64"@,
        "windows"@ + "-"@ + "arm64"@ == "windows-arm64"@,
{
    reveal_strlit("darwin");
    reveal_strlit("windows");
    reveal_strlit("-");
    reveal_strlit("x64");
    reveal_strlit("arm64");
    reveal_strlit("darwin-x64");
    reveal_strlit("darwin-arm64");
    reveal_strlit("windows-x64");
    reveal_strlit("windows-arm64");
    assert("darwin"@ + "-"@ + "x64"@ =~= "darwin-x64"@);
    assert("darwin"@ + "-"@ + "arm64"@ =~= "darwin-arm64"@);
    assert("windows"@ + "-"@ + "x64"@ =~= "windows-x64"@);
    assert("windows"@ + "-"@ + "arm64"@ =~= "windows-arm64"@);
}

/// The supported platforms are those of macOS and Windows on amd64 and arm64, and
/// each has its own name.
pub proof fn law_four_platforms_are_supported(os: Seq<char>, arch: Seq<char>)
    ensures
        platform_of("darwin"@, "amd64"@) == Some("darwin-x64"@),
        platform_of("darwin"@, "arm64"@) == Some("darwin-arm64"@),
        platform_of("windows"@, "amd64"@) == Some("windows-x64"@),
        platform_of("windows"@, "arm64"@) == Some("windows-arm64"@),
        os != "darwin"@ && os != "windows"@ ==> platform_of(os, arch) is None,
        arch != "amd64"@ && arch != "arm64"@ ==> platform_of(os, arch) is None,
{
    lemma_platform_texts();
    reveal_strlit("amd64");
    reveal_strlit("arm64");
    assert("amd64"@[1] != "arm64"@[1]);
}

/// A machine's platform has the name that the releases for it have.
pub proof fn law_machines_have_the_platform_of_their_releases(
    target_os: Seq<char>,
    target_arch: Seq<char>,
)
    ensures
        machine_platform("macos"@, "aarch64"@) == "darwin-arm64"@,
        target_arch != "aarch64"@ ==> machine_platform("macos"@, target_arch) == "darwin-x64"@,
        machine_platform("windows"@, "aarch64"@) == "windows-arm64"@,
        target_arch != "aarch64"@ ==> machine_platform("windows"@, target_arch) == "windows-x64"@,
        target_os != "macos"@ && target_os != "windows"@ ==> text::begins(
            machine_platform(target_os, target_arch),
            "unsupported-"@,
        ),
{
    lemma_platform_texts();
    reveal_strlit("macos");
    reveal_strlit("windows");
    assert("macos"@.len() == 5);
    assert("windows"@.len() == 7);
    reveal_strlit("unsupported");
    reveal_strlit("unsupported-");
    reveal_strlit("-");
    if target_os != "macos"@ && target_os != "windows"@ {
        assert(machine_platform(target_os, target_arch).take(12) =~= "unsupported-"@);
    }
}

/// The letters `v` before a version are dropped, and nothing else.
pub proof fn law_versions_are_bared(version: Seq<char>)
    ensures
        version.len() == 0 || version[0] != 'v' ==> bare_version(version) == version,
        bare_version(seq!['v'] + version) == bare_version(version),
        bare_version(bare_version(version)) == bare_version(version),
    decreases version.len(),
{
    assert((seq!['v'] + version).drop_first() =~= version);
    if version.len() > 0 && version[0] == 'v' {
        law_versions_are_bared(version.drop_first());
    }
}

/// A runtime's id tells its version and its platform; it is the same whether the
/// version is written with a `v` or without, and runtimes that differ in one of
/// them have different ids.
pub proof fn law_runtime_ids_tell_version_and_platform(
    version: Seq<char>,
    platform: Seq<char>,
    other_version: Seq<char>,
    other_platform: Seq<char>,
)
    requires
        !platform.contains('_'),
        !other_platform.contains('_'),
    ensures
        id_of(version, platform) == bare_version(version) + seq!['_'] + platform,
        id_of(seq!['v'] + version, platform) == id_of(version, platform),
        id_of(version, platform) == id_of(other_version, other_platform) ==> platform
            == other_platform && bare_version(version) == bare_version(other_version),
{
    reveal_strlit("_");
    assert("_"@ =~= seq!['_']);
    law_versions_are_bared(version);
    let a = bare_version(version);
    let b = bare_version(other_version);
    assert(id_of(version, platform) =~= a.push('_') + platform);
    assert(id_of(other_version, other_platform) =~= b.push('_') + other_platform);
    if id_of(version, platform) == id_of(other_version, other_platform) {
        text::lemma_last_separator(a, platform, b, other_platform, '_');
    }
}

/// The executable has the ending `.exe` on Windows alone.
pub proof fn law_executables_end_in_exe_on_windows(rest: Seq<char>, platform: Seq<char>)
    ensures
        executable_of("windows-"@ + rest) == "frpc.exe"@,
        (platform.len() < 8 || platform.take(8) != "windows-"@) ==> executable_of(platform)
            == "frpc"@,
{
    reveal_strlit("windows-");
    assert("windows-"@.len() == 8);
    assert(("windows-"@ + rest).take(8) =~= "windows-"@);
}

/// A file type in which releases come.
pub open spec fn file_type(tail: Seq<char>) -> bool {
    tail == ".zip"@ || tail == ".tar.gz"@ || tail == ".tgz"@
}

/// A name in the form of the releases tells the version and the platform that
/// it was made of.
pub proof fn law_release_names_are_read(
    version: Seq<char>,
    os: Seq<char>,
    arch: Seq<char>,
    tail: Seq<char>,
)
    requires
        !version.contains('_'),
        platform_of(os, arch) is Some,
        file_type(tail),
    ensures
        ({
            let name = "frp_"@ + version + "_"@ + os + "_"@ + arch + tail;
            &&& release_name(name)
            &&& name_version(name) == "v"@ + bare_version(version)
            &&& name_platform(name) == platform_of(os, arch)
        }),
{
    reveal_strlit("frp_");
    reveal_strlit("frp");
    reveal_strlit("_");
    reveal_strlit("darwin");
    reveal_strlit("windows");
    reveal_strlit("amd64");
    reveal_strlit("arm64");
    let head = "frp_"@ + version + "_"@ + os + "_"@ + arch;
    let name = head + tail;
    let a = "frp"@;
    let b = a.push('_') + version;
    let c = b.push('_') + os;
    let d = c.push('_') + arch;
    assert(head =~= d);
    assert(!a.contains('_'));
    assert(!os.contains('_'));
    assert(!arch.contains('_'));
    text::lemma_one_piece(a, '_');
    text::lemma_last_piece(a, version, '_');
    text::lemma_last_piece(b, os, '_');
    text::lemma_last_piece(c, arch, '_');
    assert(arch.last() == '4');
    assert(head.last() == '4');
    lemma_file_type_dropped(head, tail);
    assert(name_parts(name) == seq![a].push(version).push(os).push(arch));
}

/// Any name in the form of the releases tells its version, and a platform exactly
/// where its operating system and its architecture are supported. More may follow
/// the architecture, behind an underscore.
pub proof fn law_release_names_tell_their_parts(
    version: Seq<char>,
    os: Seq<char>,
    arch: Seq<char>,
    more: Seq<char>,
    tail: Seq<char>,
)
    requires
        !version.contains('_'),
        !os.contains('_'),
        !arch.contains('_'),
        file_type(tail),
        more.len() == 0 || more[0] == '_',
        arch.len() > 0,
        (arch + more).last() != 'z',
        (arch + more).last() != 'p',
    ensures
        ({
            let name = "frp_"@ + version + "_"@ + os + "_"@ + arch + more + tail;
            &&& release_name(name)
            &&& name_version(name) == "v"@ + bare_version(version)
            &&& name_platform(name) == platform_of(os, arch)
        }),
{
    reveal_strlit("frp_");
    reveal_strlit("frp");
    reveal_strlit("_");
    let head = "frp_"@ + version + "_"@ + os + "_"@ + arch + more;
    let name = head + tail;
    let a = "frp"@;
    let b = a.push('_') + version;
    let c = b.push('_') + os;
    let d = c.push('_') + arch;
    assert(head =~= d + more);
    assert(!a.contains('_'));
    text::lemma_one_piece(a, '_');
    text::lemma_last_piece(a, version, '_');
    text::lemma_last_piece(b, os, '_');
    text::lemma_last_piece(c, arch, '_');
    lemma_more_pieces(d, more);
    assert(head.last() == (arch + more).last());
    lemma_file_type_dropped(head, tail);
    let first = seq![a].push(version).push(os).push(arch);
    assert(text::pieces(d, '_') == first);
    let all = text::pieces(head, '_');
    assert(all.take(4)[0] == all[0] && all.take(4)[1] == all[1] && all.take(4)[2] == all[2]
        && all.take(4)[3] == all[3]);
}

/// What follows behind a separator leaves the pieces before it as they are.
proof fn lemma_more_pieces(s: Seq<char>, more: Seq<char>)
    requires
        more.len() == 0 || more[0] == '_',
    ensures
        text::pieces(s + more, '_').len() >= text::pieces(s, '_').len(),
        text::pieces(s + more, '_').take(text::pieces(s, '_').len() as int) == text::pieces(s, '_'),
    decreases more.len(),
{
    let before = text::pieces(s, '_');
    if more.len() == 0 {
        assert(s + more =~= s);
        assert(before.take(before.len() as int) =~= before);
    } else {
        let init = more.drop_last();
        lemma_more_pieces(s, init);
        assert((s + more).drop_last() =~= s + init);
        let longer = text::pieces(s + init, '_');
        text::lemma_pieces_nonempty(s + init, '_');
        if more.len() == 1 {
            assert(s + init =~= s);
            assert((s + more).last() == '_');
            assert(text::pieces(s + more, '_').take(before.len() as int) =~= before);
        } else {
            lemma_behind_a_separator(s, init);
            assert(text::pieces(s + more, '_').take(before.len() as int) =~= longer.take(
                before.len() as int,
            ));
        }
    }
}

proof fn lemma_behind_a_separator(s: Seq<char>, more: Seq<char>)
    requires
        more.len() > 0,
        more[0] == '_',
    ensures
        text::pieces(s + more, '_').len() > text::pieces(s, '_').len(),
    decreases more.len(),
{
    let init = more.drop_last();
    assert((s + more).drop_last() =~= s + init);
    text::lemma_pieces_nonempty(s + init, '_');
    if more.len() == 1 {
        assert(s + init =~= s);
    } else {
        lemma_behind_a_separator(s, init);
    }
}

proof fn lemma_file_type_dropped(head: Seq<char>, tail: Seq<char>)
    requires
        head.len() > 0,
        head.last() != 'z',
        head.last() != 'p',
        file_type(tail),
    ensures
        text::without_tail(
            text::without_tail(text::without_tail(head + tail, ".tar.gz"@), ".tgz"@),
            ".zip"@,
        ) == head,
{
    reveal_strlit(".tar.gz");
    reveal_strlit(".tgz");
    reveal_strlit(".zip");
    let name = head + tail;
    text::lemma_tail_kept(head, ".tar.gz"@);
    text::lemma_tail_kept(head, ".tgz"@);
    text::lemma_tail_kept(head, ".zip"@);
    assert(name.take(name.len() - tail.len()) =~= head);
    assert(name.skip(name.len() - tail.len()) =~= tail);
    assert(".zip"@.len() == 4);
    assert(".tgz"@.len() == 4);
    assert(".tar.gz"@.len() == 7);
    if tail == ".zip"@ {
        assert(name.last() == 'p');
        text::lemma_tail_kept(name, ".tar.gz"@);
        text::lemma_tail_kept(name, ".tgz"@);
    } else if tail == ".tgz"@ {
        if text::ends(name, ".tar.gz"@) {
            assert(name.skip(name.len() - 7)[4] == name[name.len() - 3]);
            assert(name[name.len() - 3] == tail[1]);
        }
    }
}

/// A name whose first part is not the name of the project is no release name.
pub proof fn law_other_names_are_no_release_names(first: Seq<char>, rest: Seq<char>, name: Seq<char>)
    requires
        name == first + seq!['_'] + rest,
        !first.contains('_'),
        first != "frp"@,
        name.len() > 0,
        name.last() != 'z',
        name.last() != 'p',
    ensures
        !release_name(name),
{
    reveal_strlit(".tar.gz");
    reveal_strlit(".tgz");
    reveal_strlit(".zip");
    text::lemma_tail_kept(name, ".tar.gz"@);
    text::lemma_tail_kept(name, ".tgz"@);
    text::lemma_tail_kept(name, ".zip"@);
    let more = seq!['_'] + rest;
    assert(name =~= first + more);
    text::lemma_one_piece(first, '_');
    lemma_more_pieces(first, more);
    let all = text::pieces(name, '_');
    assert(all.take(1)[0] == all[0]);
}

/// A name with fewer than four parts is no release name.
pub proof fn law_short_names_are_no_release_names(a: Seq<char>, b: Seq<char>, c: Seq<char>)
    requires
        !a.contains('_'),
        !b.contains('_'),
        !c.contains('_'),
        c.len() > 0,
        c.last() != 'z',
        c.last() != 'p',
    ensures
        !release_name(c),
        !release_name(b + seq!['_'] + c),
        !release_name(a + seq!['_'] + b + seq!['_'] + c),
{
    reveal_strlit(".tar.gz");
    reveal_strlit(".tgz");
    reveal_strlit(".zip");
    let two = b.push('_') + c;
    let three = (a.push('_') + b).push('_') + c;
    assert(b + seq!['_'] + c =~= two);
    assert(a + seq!['_'] + b + seq!['_'] + c =~= three);
    text::lemma_tail_kept(c, ".tar.gz"@);
    text::lemma_tail_kept(c, ".tgz"@);
    text::lemma_tail_kept(c, ".zip"@);
    text::lemma_tail_kept(two, ".tar.gz"@);
    text::lemma_tail_kept(two, ".tgz"@);
    text::lemma_tail_kept(two, ".zip"@);
    text::lemma_tail_kept(three, ".tar.gz"@);
    text::lemma_tail_kept(three, ".tgz"@);
    text::lemma_tail_kept(three, ".zip"@);
    text::lemma_one_piece(c, '_');
    text::lemma_one_piece(b, '_');
    text::lemma_one_piece(a, '_');
    text::lemma_last_piece(b, c, '_');
    text::lemma_last_piece(a, b, '_');
    text::lemma_last_piece(a.push('_') + b, c, '_');
}

/// The executable of a machine's platform has the name that it has on the
/// machine.
pub proof fn law_executable_names_agree(target_os: Seq<char>, target_arch: Seq<char>)
    ensures
        executable_of(machine_platform(target_os, target_arch)) == if target_os == "windows"@ {
            "frpc.exe"@
        } else {
            "frpc"@
        },
{
    let platform = machine_platform(target_os, target_arch);
    reveal_strlit("windows");
    reveal_strlit("windows-");
    reveal_strlit("darwin");
    reveal_strlit("unsupported");
    reveal_strlit("macos");
    reveal_strlit("-");
    assert("macos"@.len() == 5);
    assert("windows"@.len() == 7);
    if target_os == "windows"@ {
        assert(platform.take(8) =~= "windows-"@);
    } else {
        assert(platform[0] != "windows-"@[0]);
    }
}

/// The first of the runtimes with this id stands at `k`.
pub open spec fn first_runtime(runtimes: Seq<RuntimeInfo>, id: Seq<char>, k: int) -> bool {
    &&& 0 <= k < runtimes.len()
    &&& runtimes[k].id@ == id
    &&& forall|j: int| 0 <= j < k ==> (#[trigger] runtimes[j]).id@ != id
}

/// One of the runtimes has this id.
pub open spec fn installed(runtimes: Seq<RuntimeInfo>, id: Seq<char>) -> bool {
    exists|i: int| 0 <= i < runtimes.len() && (#[trigger] runtimes[i]).id@ == id
}

/// The runtime at `k` is the one to be used: the chosen one where it is
/// installed, else the first.
pub open spec fn in_charge(
    runtimes: Seq<RuntimeInfo>,
    chosen: Option<Seq<char>>,
    k: int,
) -> bool {
    match chosen {
        Some(id) => if installed(runtimes, id) {
            first_runtime(runtimes, id, k)
        } else {
            k == 0 && runtimes.len() > 0
        },
        None => k == 0 && runtimes.len() > 0,
    }
}

fn find_runtime(runtimes: &[RuntimeInfo], id: &str) -> (found: Option<usize>)
    ensures
        match found {
            Some(k) => first_runtime(runtimes@, id@, k as int) && installed(runtimes@, id@),
            None => !installed(runtimes@, id@),
        },
{
    let mut i: usize = 0;
    while i < runtimes.len()
        invariant
            i <= runtimes@.len(),
            forall|j: int| 0 <= j < i ==> (#[trigger] runtimes@[j]).id@ != id@,
        decreases runtimes@.len() - i,
    {
        if text::same_text(runtimes[i].id.as_str(), id) {
            return Some(i);
        }
        i = i + 1;
    }
    None
}

/// The runtime to be used.
pub fn select_current_runtime(runtimes: &[RuntimeInfo], settings: &AppSettings) -> (chosen: Option<
    RuntimeInfo,
>)
    ensures
        match chosen {
            Some(runtime) => exists|k: int| #[trigger]
                in_charge(runtimes@, settings@.current_runtime, k) && runtime == runtimes@[k],
            None => runtimes@.len() == 0,
        },
{
    let found: Option<usize> = match &settings.current_runtime_id {
        Some(id) => find_runtime(runtimes, id.as_str()),
        None => None,
    };
    let k: usize = match found {
        Some(k) => k,
        None => {
            if runtimes.len() == 0 {
                return None;
            }
            0
        },
    };
    assert(in_charge(runtimes@, settings@.current_runtime, k as int));
    Some(runtimes[k].clone())
}

/// The runtime to be used for a service that starts.
pub fn current_runtime(runtimes: &[RuntimeInfo], settings: &AppSettings) -> (chosen: Result<
    RuntimeInfo,
    AppError,
>)
    ensures
        match chosen {
            Ok(runtime) => exists|k: int| #[trigger]
                in_charge(runtimes@, settings@.current_runtime, k) && runtime == runtimes@[k],
            Err(e) => runtimes@.len() == 0 && e == AppError::NoRuntime,
        },
{
    match select_current_runtime(runtimes, settings) {
        Some(runtime) => Ok(runtime),
        None => Err(AppError::NoRuntime),
    }
}

/// The runtime to be used is the chosen one where it is installed: of several
/// with its id the first. Where none is chosen, or the chosen one is not
/// installed, it is the first of all. There is one unless nothing is installed.
pub proof fn law_chosen_runtime_is_used(runtimes: Seq<RuntimeInfo>, chosen: Option<Seq<char>>, k: int)
    ensures
        in_charge(runtimes, chosen, k) <==> 0 <= k < runtimes.len() && if chosen is Some && exists|
            i: int,
        |
            0 <= i < runtimes.len() && (#[trigger] runtimes[i]).id@ == chosen->0 {
            runtimes[k].id@ == chosen->0 && forall|j: int|
                0 <= j < k ==> (#[trigger] runtimes[j]).id@ != chosen->0
        } else {
            k == 0
        },
{
}

/// Looking for a runtime finds the first one with the id, if there is one.
pub proof fn law_runtime_is_found_by_its_id(runtimes: Seq<RuntimeInfo>, id: Seq<char>, i: int, k: int)
    requires
        0 <= i < runtimes.len(),
        runtimes[i].id@ == id,
    ensures
        installed(runtimes, id),
        first_runtime(runtimes, id, k) ==> 0 <= k <= i && runtimes[k].id@ == id,
        (forall|j: int| 0 <= j < i ==> (#[trigger] runtimes[j]).id@ != id) ==> first_runtime(
            runtimes,
            id,
            i,
        ),
{
}

/// No runtime is found where none has the id.
pub proof fn law_unknown_runtime_is_not_found(runtimes: Seq<RuntimeInfo>, id: Seq<char>, k: int)
    requires
        forall|j: int| 0 <= j < runtimes.len() ==> (#[trigger] runtimes[j]).id@ != id,
    ensures
        !installed(runtimes, id),
        !first_runtime(runtimes, id, k),
{
}

/// A runtime with the flags that follow from the chosen one.
pub open spec fn flagged(runtime: RuntimeInfo, chosen: Option<Seq<char>>) -> RuntimeInfo {
    RuntimeInfo {
        is_current: chosen == Some(runtime.id@),
        can_delete: chosen != Some(runtime.id@),
        ..runtime
    }
}

/// Runtimes with the flags that follow from the chosen one.
pub open spec fn all_flagged(
    runtimes: Seq<RuntimeInfo>,
    chosen: Option<Seq<char>>,
) -> Seq<RuntimeInfo> {
    runtimes.map_values(|runtime: RuntimeInfo| flagged(runtime, chosen))
}

/// No runtime was imported before one that follows it.
pub open spec fn newest_first(runtimes: Seq<RuntimeInfo>) -> bool {
    forall|i: int, j: int|
        0 <= i < j < runtimes.len() ==> !text_map::text_less(
            (#[trigger] runtimes[i]).imported_at@,
            (#[trigger] runtimes[j]).imported_at@,
        )
}

/// The runtime was imported at a time.
pub open spec fn imported(at: Seq<char>) -> spec_fn(RuntimeInfo) -> bool {
    |runtime: RuntimeInfo| runtime.imported_at@ == at
}

proof fn lemma_none_imported(runtimes: Seq<RuntimeInfo>, at: Seq<char>)
    requires
        forall|i: int|
            0 <= i < runtimes.len() ==> (#[trigger] runtimes[i]).imported_at@ != at,
    ensures
        runtimes.filter(imported(at)).len() == 0,
    decreases runtimes.len(),
{
    reveal(Seq::filter);
    if runtimes.len() > 0 {
        lemma_none_imported(runtimes.drop_last(), at);
        assert(runtimes.last() == runtimes[runtimes.len() - 1]);
    }
}

proof fn lemma_insert_stable(
    sorted: Seq<RuntimeInfo>,
    source: Seq<RuntimeInfo>,
    p: int,
    runtime: RuntimeInfo,
)
    requires
        newest_first(sorted),
        0 <= p <= sorted.len(),
        forall|i: int|
            0 <= i < p ==> !text_map::text_less(
                (#[trigger] sorted[i]).imported_at@,
                runtime.imported_at@,
            ),
        p < sorted.len() ==> text_map::text_less(sorted[p].imported_at@, runtime.imported_at@),
        forall|at: Seq<char>| #[trigger]
            sorted.filter(imported(at)) == source.filter(imported(at)),
    ensures
        newest_first(sorted.insert(p, runtime)),
        forall|at: Seq<char>| #[trigger]
            sorted.insert(p, runtime).filter(imported(at)) == source.push(runtime).filter(
                imported(at),
            ),
{
    let after = sorted.insert(p, runtime);
    let t = runtime.imported_at@;
    assert forall|i: int| p <= i < sorted.len() implies text_map::text_less(
        (#[trigger] sorted[i]).imported_at@,
        t,
    ) by {
        if i > p {
            assert(!text_map::text_less(sorted[p].imported_at@, sorted[i].imported_at@));
            text_map::lemma_less_total(sorted[p].imported_at@, sorted[i].imported_at@);
            if text_map::text_less(sorted[i].imported_at@, sorted[p].imported_at@) {
                text_map::lemma_less_transitive(
                    sorted[i].imported_at@,
                    sorted[p].imported_at@,
                    t,
                );
            }
        }
    }
    assert forall|i: int, j: int| 0 <= i < j < after.len() implies !text_map::text_less(
        (#[trigger] after[i]).imported_at@,
        (#[trigger] after[j]).imported_at@,
    ) by {
        if i == p {
            assert(after[j] == sorted[j - 1]);
            text_map::lemma_less_asymmetric(sorted[j - 1].imported_at@, t);
        } else if j == p {
            assert(after[i] == sorted[i]);
        } else {
            let x = if i < p { i } else { i - 1 };
            let y = if j < p { j } else { j - 1 };
            assert(after[i] == sorted[x] && after[j] == sorted[y]);
        }
    }
    let front = sorted.take(p);
    let back = sorted.skip(p);
    assert(sorted =~= front + back);
    assert(after =~= front.push(runtime) + back);
    assert forall|at: Seq<char>| #[trigger] after.filter(imported(at)) == source.push(
        runtime,
    ).filter(imported(at)) by {
        let f = imported(at);
        Seq::filter_distributes_over_add(front, back, f);
        Seq::filter_distributes_over_add(front.push(runtime), back, f);
        assert(front.push(runtime).filter(f) == if f(runtime) {
            front.filter(f).push(runtime)
        } else {
            front.filter(f)
        }) by {
            reveal(Seq::filter);
            assert(front.push(runtime).drop_last() =~= front);
        }
        assert(source.push(runtime).filter(f) == if f(runtime) {
            source.filter(f).push(runtime)
        } else {
            source.filter(f)
        }) by {
            reveal(Seq::filter);
            assert(source.push(runtime).drop_last() =~= source);
        }
        if f(runtime) {
            assert forall|i: int| 0 <= i < back.len() implies (#[trigger] back[i]).imported_at@
                != at by {
                text_map::lemma_less_asymmetric(sorted[p + i].imported_at@, t);
            }
            lemma_none_imported(back, at);
            assert(back.filter(f) =~= Seq::<RuntimeInfo>::empty());
            assert(sorted.filter(f) =~= front.filter(f));
            assert(after.filter(f) =~= front.filter(f).push(runtime));
        }
    }
}

/// The index of the first runtime that was imported before a time.
fn place_of(listed: &Vec<RuntimeInfo>, imported_at: &str) -> (p: usize)
    ensures
        p <= listed@.len(),
        forall|j: int|
            0 <= j < p ==> !text_map::text_less(
                (#[trigger] listed@[j]).imported_at@,
                imported_at@,
            ),
        p < listed@.len() ==> text_map::text_less(listed@[p as int].imported_at@, imported_at@),
{
    let mut p: usize = 0;
    while p < listed.len()
        invariant
            p <= listed@.len(),
            forall|j: int|
                0 <= j < p ==> !text_map::text_less(
                    (#[trigger] listed@[j]).imported_at@,
                    imported_at@,
                ),
        decreases listed@.len() - p,
    {
        match order_texts(listed[p].imported_at.as_str(), imported_at) {
            TextOrder::Before => {
                return p;
            },
            TextOrder::Same => {
                proof {
                    text_map::lemma_less_irreflexive(imported_at@);
                }
            },
            TextOrder::After => {
                proof {
                    text_map::lemma_less_asymmetric(
                        imported_at@,
                        listed@[p as int].imported_at@,
                    );
                }
            },
        }
        p = p + 1;
    }
    p
}

/// Two records tell the same of an installed runtime, its flags apart: what it
/// is, where it came from and where its executable is. It is in use in both or
/// in none.
pub open spec fn same_manifest(a: RuntimeInfo, b: RuntimeInfo) -> bool {
    &&& a.id@ == b.id@
    &&& a.version@ == b.version@
    &&& a.platform@ == b.platform@
    &&& a.imported_at@ == b.imported_at@
    &&& a.archive_name@ == b.archive_name@
    &&& a.binary_path@ == b.binary_path@
    &&& a.is_in_use == b.is_in_use
}

/// One of the records tells the same of a runtime, its flags apart.
pub open spec fn told_by(records: Seq<RuntimeInfo>, runtime: RuntimeInfo) -> bool {
    exists|i: int| 0 <= i < records.len() && same_manifest(#[trigger] records[i], runtime)
}

/// Listing flags the chosen runtime as current, and only it as not to be deleted,
/// and keeps everything that the manifests tell.
pub proof fn law_listing_keeps_the_manifests(
    found: Seq<RuntimeInfo>,
    chosen: Option<Seq<char>>,
    i: int,
)
    ensures
        all_flagged(found, chosen).len() == found.len(),
        0 <= i < found.len() ==> {
            let listed = all_flagged(found, chosen)[i];
            &&& listed.id == found[i].id
            &&& listed.version == found[i].version
            &&& listed.platform == found[i].platform
            &&& listed.imported_at == found[i].imported_at
            &&& listed.archive_name == found[i].archive_name
            &&& listed.binary_path == found[i].binary_path
            &&& listed.is_in_use == found[i].is_in_use
            &&& listed.is_current <==> chosen == Some(found[i].id@)
            &&& listed.can_delete <==> chosen != Some(found[i].id@)
        },
{
}

/// Every runtime that is listed tells what the manifest of a found one tells.
pub proof fn law_listed_runtimes_are_found_ones(
    found: Seq<RuntimeInfo>,
    chosen: Option<Seq<char>>,
    listed: Seq<RuntimeInfo>,
    j: int,
)
    requires
        forall|at: Seq<char>| #[trigger]
            listed.filter(imported(at)) == all_flagged(found, chosen).filter(imported(at)),
        0 <= j < listed.len(),
    ensures
        exists|i: int|
            0 <= i < found.len() && same_manifest(#[trigger] found[i], listed[j]),
        listed[j].is_current <==> chosen == Some(listed[j].id@),
        listed[j].can_delete <==> chosen != Some(listed[j].id@),
{
    broadcast use vstd::seq_lib::group_filter_ensures;

    let at = listed[j].imported_at@;
    let source = all_flagged(found, chosen);
    assert(imported(at)(listed[j]));
    assert(listed.filter(imported(at)).contains(listed[j]));
    assert(source.filter(imported(at)).contains(listed[j]));
    let k = source.filter(imported(at)).index_of(listed[j]);
    text_map::lemma_filtered_from(source, imported(at), k);
    let i = source.index_of(listed[j]);
    law_listing_keeps_the_manifests(found, chosen, i);
    assert(same_manifest(found[i], listed[j]));
}

/// Every runtime that was found is listed.
pub proof fn law_found_runtimes_are_listed(
    found: Seq<RuntimeInfo>,
    chosen: Option<Seq<char>>,
    listed: Seq<RuntimeInfo>,
    i: int,
)
    requires
        forall|at: Seq<char>| #[trigger]
            listed.filter(imported(at)) == all_flagged(found, chosen).filter(imported(at)),
        0 <= i < found.len(),
    ensures
        exists|j: int|
            0 <= j < listed.len() && same_manifest(#[trigger] listed[j], found[i]),
{
    broadcast use vstd::seq_lib::group_filter_ensures;

    law_listing_keeps_the_manifests(found, chosen, i);
    let source = all_flagged(found, chosen);
    let runtime = source[i];
    let at = runtime.imported_at@;
    assert(imported(at)(runtime));
    assert(source.filter(imported(at)).contains(runtime));
    assert(listed.filter(imported(at)).contains(runtime));
    let k = listed.filter(imported(at)).index_of(runtime);
    text_map::lemma_filtered_from(listed, imported(at), k);
    let j = listed.index_of(runtime);
    assert(same_manifest(listed[j], found[i]));
}

/// Where two runtimes were imported at the same time, the one that was found
/// first is listed first.
pub proof fn law_listing_keeps_the_order_of_equal_times(
    found: Seq<RuntimeInfo>,
    chosen: Option<Seq<char>>,
    listed: Seq<RuntimeInfo>,
    at: Seq<char>,
    n: int,
)
    requires
        forall|at: Seq<char>| #[trigger]
            listed.filter(imported(at)) == all_flagged(found, chosen).filter(imported(at)),
        forall|i: int| 0 <= i < found.len() ==> (#[trigger] found[i]).imported_at@ == at,
        forall|j: int| 0 <= j < listed.len() ==> (#[trigger] listed[j]).imported_at@ == at,
        0 <= n < found.len(),
    ensures
        listed.len() == found.len(),
        same_manifest(found[n], listed[n]),
{
    let source = all_flagged(found, chosen);
    assert forall|i: int| 0 <= i < source.len() implies (#[trigger] source[i]).imported_at@ == at by {
        law_listing_keeps_the_manifests(found, chosen, i);
    }
    lemma_all_imported(source, at);
    lemma_all_imported(listed, at);
    assert(listed.filter(imported(at)) == source.filter(imported(at)));
    law_listing_keeps_the_manifests(found, chosen, n);
}

proof fn lemma_all_imported(runtimes: Seq<RuntimeInfo>, at: Seq<char>)
    requires
        forall|i: int| 0 <= i < runtimes.len() ==> (#[trigger] runtimes[i]).imported_at@ == at,
    ensures
        runtimes.filter(imported(at)) == runtimes,
    decreases runtimes.len(),
{
    reveal(Seq::filter);
    if runtimes.len() > 0 {
        lemma_all_imported(runtimes.drop_last(), at);
        assert(runtimes.last() == runtimes[runtimes.len() - 1]);
        assert(runtimes.drop_last().push(runtimes.last()) =~= runtimes);
    } else {
        assert(runtimes.filter(imported(at)) =~= runtimes);
    }
}

/// The runtimes as they are listed: with the flags that follow from the chosen
/// one, the last imported first, and in the given order where the times agree.
pub fn arrange_runtimes(found: Vec<RuntimeInfo>, settings: &AppSettings) -> (listed: Vec<
    RuntimeInfo,
>)
    ensures
        newest_first(listed@),
        forall|at: Seq<char>| #[trigger]
            listed@.filter(imported(at)) == all_flagged(
                found@,
                settings@.current_runtime,
            ).filter(imported(at)),
        listed@.len() == found@.len(),
        forall|j: int| 0 <= j < listed@.len() ==> told_by(found@, #[trigger] listed@[j]),
        forall|i: int| 0 <= i < found@.len() ==> told_by(listed@, #[trigger] found@[i]),
        forall|j: int|
            0 <= j < listed@.len() ==> ((#[trigger] listed@[j]).is_current <==> text::text_option(
                settings.current_runtime_id,
            ) == Some(listed@[j].id@)),
        forall|i: int, j: int|
            0 <= i < j < listed@.len() ==> !text_map::text_less(
                (#[trigger] listed@[i]).imported_at@,
                (#[trigger] listed@[j]).imported_at@,
            ),
{
    let ghost chosen = settings@.current_runtime;
    let ghost source = all_flagged(found@, chosen);
    let mut listed: Vec<RuntimeInfo> = Vec::new();
    let mut i: usize = 0;
    assert(source.take(0) =~= Seq::<RuntimeInfo>::empty());
    while i < found.len()
        invariant
            i <= found@.len(),
            chosen == settings@.current_runtime,
            source == all_flagged(found@, chosen),
            listed@.len() == i,
            newest_first(listed@),
            forall|at: Seq<char>| #[trigger]
                listed@.filter(imported(at)) == source.take(i as int).filter(imported(at)),
        decreases found@.len() - i,
    {
        let is_current = text::holds_text(&settings.current_runtime_id, found[i].id.as_str());
        let mut runtime = found[i].clone();
        runtime.is_current = is_current;
        runtime.can_delete = !is_current;
        assert(runtime == flagged(found@[i as int], chosen));
        let p: usize = place_of(&listed, runtime.imported_at.as_str());
        proof {
            lemma_insert_stable(listed@, source.take(i as int), p as int, runtime);
            assert(source.take(i + 1) =~= source.take(i as int).push(runtime));
        }
        listed.insert(p, runtime);
        i = i + 1;
    }
    assert(source.take(i as int) =~= source);
    proof {
        assert forall|j: int| 0 <= j < listed@.len() implies told_by(found@, #[trigger] listed@[j])
            && (listed@[j].is_current <==> chosen == Some(listed@[j].id@)) by {
            law_listed_runtimes_are_found_ones(found@, chosen, listed@, j);
        }
        assert forall|i: int| 0 <= i < found@.len() implies told_by(listed@, #[trigger] found@[i]) by {
            law_found_runtimes_are_listed(found@, chosen, listed@, i);
        }
    }
    listed
}

/// A runtime with the flags that follow from the runtimes in use.
pub open spec fn with_usage(runtime: RuntimeInfo, active: Set<Seq<char>>) -> RuntimeInfo {
    RuntimeInfo {
        is_in_use: active.contains(runtime.id@),
        can_delete: !runtime.is_current && !active.contains(runtime.id@),
        ..runtime
    }
}

/// Marks the runtimes in use, which cannot be deleted.
pub fn mark_runtime_usage(runtimes: &mut Vec<RuntimeInfo>, active_runtime_ids: &TextMap<()>)
    requires
        active_runtime_ids.wf(),
    ensures
        final(runtimes)@ == old(runtimes)@.map_values(
            |runtime: RuntimeInfo| with_usage(runtime, active_runtime_ids@.dom()),
        ),
        final(runtimes)@.len() == old(runtimes)@.len(),
        forall|i: int|
            0 <= i < final(runtimes)@.len() ==> {
                let before = old(runtimes)@[i];
                let after = #[trigger] final(runtimes)@[i];
                &&& after.id == before.id
                &&& after.version == before.version
                &&& after.platform == before.platform
                &&& after.imported_at == before.imported_at
                &&& after.archive_name == before.archive_name
                &&& after.binary_path == before.binary_path
                &&& after.is_current == before.is_current
                &&& after.is_in_use == active_runtime_ids@.contains_key(before.id@)
                &&& after.can_delete == (!before.is_current && !active_runtime_ids@.contains_key(
                    before.id@,
                ))
            },
{
    let ghost before = runtimes@;
    let mut i: usize = 0;
    while i < runtimes.len()
        invariant
            i <= runtimes@.len(),
            runtimes@.len() == before.len(),
            active_runtime_ids.wf(),
            forall|j: int|
                0 <= j < i ==> #[trigger] runtimes@[j] == with_usage(
                    before[j],
                    active_runtime_ids@.dom(),
                ),
            forall|j: int| i <= j < before.len() ==> #[trigger] runtimes@[j] == before[j],
        decreases runtimes@.len() - i,
    {
        let mut runtime = runtimes[i].clone();
        runtime.is_in_use = active_runtime_ids.contains_key(runtime.id.as_str());
        runtime.can_delete = !runtime.is_current && !runtime.is_in_use;
        runtimes.set(i, runtime);
        i = i + 1;
    }
    assert(runtimes@ =~= before.map_values(
        |runtime: RuntimeInfo| with_usage(runtime, active_runtime_ids@.dom()),
    ));
}

/// Marking tells of each runtime whether it is in use, and keeps everything else.
pub proof fn law_marking_keeps_the_manifests(runtime: RuntimeInfo, active: Set<Seq<char>>)
    ensures
        ({
            let marked = with_usage(runtime, active);
            &&& marked.id == runtime.id
            &&& marked.version == runtime.version
            &&& marked.platform == runtime.platform
            &&& marked.imported_at == runtime.imported_at
            &&& marked.archive_name == runtime.archive_name
            &&& marked.binary_path == runtime.binary_path
            &&& marked.is_current == runtime.is_current
            &&& marked.is_in_use <==> active.contains(runtime.id@)
            &&& marked.can_delete <==> !runtime.is_current && !active.contains(runtime.id@)
        }),
{
}

/// Makes a runtime the chosen one.
pub fn choose_runtime(runtimes: &[RuntimeInfo], settings: &mut AppSettings, id: &str) -> (done:
    Result<(), AppError>)
    requires
        old(settings).wf(),
    ensures
        final(settings).wf(),
        match done {
            Ok(_) => installed(runtimes@, id@) && final(settings)@ == (SettingsView {
                current_runtime: Some(id@),
                ..old(settings)@
            }),
            Err(e) => !installed(runtimes@, id@) && (e matches AppError::UnknownRuntime(unknown)
                && unknown@ == id@) && final(settings)@ == old(settings)@,
        },
{
    match find_runtime(runtimes, id) {
        Some(_) => {
            settings.current_runtime_id = Some(id.to_owned());
            Ok(())
        },
        None => Err(AppError::UnknownRuntime(id.to_owned())),
    }
}

/// The runtime to be deleted, where it can be.
pub fn deletable_runtime(runtimes: &[RuntimeInfo], id: &str) -> (found: Result<
    RuntimeInfo,
    AppError,
>)
    ensures
        match found {
            Ok(runtime) => exists|k: int| #[trigger]
                first_runtime(runtimes@, id@, k) && runtime == runtimes@[k]
                    && !runtime.is_current && !runtime.is_in_use,
            Err(e) => if installed(runtimes@, id@) {
                e == AppError::RuntimeProtected && exists|k: int| #[trigger]
                    first_runtime(runtimes@, id@, k) && (runtimes@[k].is_current
                        || runtimes@[k].is_in_use)
            } else {
                e matches AppError::RuntimeNotFound(unknown) && unknown@ == id@
            },
        },
{
    match find_runtime(runtimes, id) {
        Some(k) => {
            assert(first_runtime(runtimes@, id@, k as int));
            if runtimes[k].is_current || runtimes[k].is_in_use {
                Err(AppError::RuntimeProtected)
            } else {
                Ok(runtimes[k].clone())
            }
        },
        None => Err(AppError::RuntimeNotFound(id.to_owned())),
    }
}

/// Among runtimes that were listed and marked, exactly those can be deleted that
/// are neither current nor in use.
pub proof fn law_marked_runtimes_tell_what_can_be_deleted(
    runtime: RuntimeInfo,
    chosen: Option<Seq<char>>,
    active: Set<Seq<char>>,
)
    ensures
        ({
            let shown = with_usage(flagged(runtime, chosen), active);
            &&& shown.can_delete <==> !shown.is_current && !shown.is_in_use
            &&& shown.is_current <==> chosen == Some(runtime.id@)
            &&& shown.is_in_use <==> active.contains(runtime.id@)
        }),
{
}

/// The record of a runtime that was just installed.
pub fn manifest_at(
    version: &str,
    platform: &str,
    archive_name: &str,
    binary_path: &str,
    imported_at: String,
) -> (info: RuntimeInfo)
    ensures
        info.id@ == id_of(version@, platform@),
        info.version@ == version@,
        info.platform@ == platform@,
        info.imported_at@ == imported_at@,
        info.archive_name@ == archive_name@,
        info.binary_path@ == binary_path@,
        !info.is_current,
        !info.is_in_use,
        info.can_delete,
{
    RuntimeInfo {
        id: runtime_id(version, platform),
        version: version.to_owned(),
        platform: platform.to_owned(),
        imported_at,
        archive_name: archive_name.to_owned(),
        binary_path: binary_path.to_owned(),
        is_current: false,
        is_in_use: false,
        can_delete: true,
    }
}

/// The record of a runtime that was just installed, with the time of now.
pub fn runtime_manifest(version: &str, platform: &str, archive_name: &str, binary_path: &str) -> (
info: RuntimeInfo)
    ensures
        info.id@ == id_of(version@, platform@),
        info.version@ == version@,
        info.platform@ == platform@,
        clock::time_stamp(info.imported_at@),
        info.archive_name@ == archive_name@,
        info.binary_path@ == binary_path@,
        !info.is_current,
        !info.is_in_use,
        info.can_delete,
{
    manifest_at(version, platform, archive_name, binary_path, clock::now_rfc3339())
}

/// The place of the executable that comes with the application, below its
/// resources.
pub fn seed_resource(platform: &str, binary_name: &str) -> (out: String)
    ensures
        out@ == "resources/frpc/"@ + platform@ + "/"@ + binary_name@,
{
    let mut out: String = text::joined("resources/frpc/", platform);
    out.append("/");
    out.append(binary_name);
    out
}

/// Chooses the runtime that comes with the application where none was chosen.
/// The flag tells whether the settings changed.
pub fn adopt_seed_runtime(settings: &mut AppSettings, platform: &str) -> (changed: bool)
    requires
        old(settings).wf(),
    ensures
        final(settings).wf(),
        changed == (old(settings)@.current_runtime is None),
        changed ==> final(settings)@.current_runtime == Some(id_of("v0.67.0"@, platform@)),
        final(settings)@.current_workspace == old(settings)@.current_workspace,
        final(settings)@.intervals == old(settings)@.intervals,
        final(settings)@ == if changed {
            (SettingsView {
                current_runtime: Some(id_of(DEFAULT_VERSION@, platform@)),
                ..old(settings)@
            })
        } else {
            old(settings)@
        },
{
    if settings.current_runtime_id.is_none() {
        settings.current_runtime_id = Some(runtime_id(DEFAULT_VERSION, platform));
        true
    } else {
        false
    }
}

} // verus!
