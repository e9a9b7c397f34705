//! Stopping leftover processes on Windows.

use vstd::prelude::*;
use vstd::string::StringExecFns;

use crate::error::AppError;
use crate::logs;
use crate::logs::LogBook;
use crate::logs::LogBookView;
use crate::text;
use crate::workspace::DEFAULT_WORKSPACE_ID;

verus! {

/// A path with slashes for backslashes, without slashes at its end, in lower
/// case.
pub open spec fn normalized(path: Seq<char>) -> Seq<char> {
    text::lower(
        text::trimmed_end(text::replaced(path, '\\', seq!['/']), |c: char| c == '/'),
    )
}

/// A text in single quotes, with each single quote in it doubled.
pub open spec fn quoted(value: Seq<char>) -> Seq<char> {
    seq!['\''] + text::replaced(value, '\'', seq!['\'', '\'']) + seq!['\'']
}

/// A path with slashes for backslashes, without slashes at its end, in lower
/// case.
pub fn normalize_windows_path(path: &str) -> (out: String)
    ensures
        out@ == normalized(path@),
{
    proof {
        reveal_strlit("/");
        assert("/"@ =~= seq!['/']);
    }
    let slashed = text::replace_char(path, '\\', "/");
    let trimmed = text::trim_end_char(slashed.as_str(), '/');
    text::lower_text(trimmed.as_str())
}

/// A text in single quotes, with each single quote in it doubled.
pub fn powershell_single_quoted(value: &str) -> (out: String)
    ensures
        out@ == quoted(value@),
{
    proof {
        reveal_strlit("''");
        assert("''"@ =~= seq!['\'', '\'']);
    }
    let mut out: String = String::new();
    out.push('\'');
    out.append(text::replace_char(value, '\'', "''").as_str());
    out.push('\'');
    assert(out@ =~= quoted(value@));
    out
}

/// What follows the two directories in the cleanup script.
pub const SCRIPT_BODY: &'static str = "\nGet-CimInstance Win32_Process -Filter \"Name = 'frpc.exe'\" | Where-Object {\n  if (-not $_.ExecutablePath) { $false } else {\n    $path = ($_.ExecutablePath -replace '\\\\', '/').TrimEnd('/').ToLowerInvariant()\n    $commandLine = if ($_.CommandLine) { ($_.CommandLine -replace '\\\\', '/').ToLowerInvariant() } else { '' }\n    $inWorkspace = (-not $workspace) -or $commandLine.Contains($workspace)\n    $path.EndsWith('/frpc.exe') -and $path.StartsWith($root + '/') -and $inWorkspace\n  }\n} | ForEach-Object {\n  Stop-Process -Id $_.ProcessId -Force -ErrorAction Stop\n  Write-Output (\"已停止残留 frpc.exe，PID \" + $_.ProcessId)\n}";

/// The script that stops the processes below the application's data directory,
/// those of one workspace or all.
pub open spec fn cleanup_script(app_data_dir: Seq<char>, workspace_dir: Option<Seq<char>>) -> Seq<
    char,
> {
    "$root = "@ + quoted(normalized(app_data_dir)) + "\n$workspace = "@ + (match workspace_dir {
        Some(dir) => quoted(normalized(dir)),
        None => "$null"@,
    }) + SCRIPT_BODY@
}

/// The script that stops the processes below the application's data directory,
/// those of one workspace or all.
pub fn windows_frpc_cleanup_script(app_data_dir: &str, workspace_dir: Option<&str>) -> (script: String)
    ensures
        script@ == cleanup_script(app_data_dir@, text::borrowed_option(workspace_dir)),
{
    let mut script: String = text::joined(
        "$root = ",
        powershell_single_quoted(normalize_windows_path(app_data_dir).as_str()).as_str(),
    );
    script.append("\n$workspace = ");
    match workspace_dir {
        Some(dir) => {
            script.append(powershell_single_quoted(normalize_windows_path(dir).as_str()).as_str());
        },
        None => {
            script.append("$null");
        },
    }
    script.append(SCRIPT_BODY);
    script
}

/// What stands before the next single quote that is not doubled, with doubled
/// ones read as one.
pub open spec fn unquoted(s: Seq<char>) -> Seq<char>
    decreases s.len(),
{
    if s.len() == 0 {
        Seq::empty()
    } else if s[0] == '\'' {
        if s.len() >= 2 && s[1] == '\'' {
            seq!['\''] + unquoted(s.skip(2))
        } else {
            Seq::empty()
        }
    } else {
        seq![s[0]] + unquoted(s.skip(1))
    }
}

proof fn lemma_replaced_front(s: Seq<char>, from: char, to: Seq<char>)
    requires
        s.len() > 0,
    ensures
        text::replaced(s, from, to) == (if s[0] == from {
            to
        } else {
            seq![s[0]]
        }) + text::replaced(s.skip(1), from, to),
{
    assert(s =~= seq![s[0]] + s.skip(1));
    text::lemma_replaced_concat(seq![s[0]], s.skip(1), from, to);
    text::lemma_replaced_one(s[0], from, to);
}

/// Whatever a text holds, it is read back from its quotation: no single quote in
/// it ends the quotation.
pub proof fn law_quoted_text_reads_back(value: Seq<char>, rest: Seq<char>)
    requires
        rest.len() == 0 || rest[0] != '\'',
    ensures
        quoted(value)[0] == '\'',
        unquoted((quoted(value) + rest).skip(1)) == value,
    decreases value.len(),
{
    let two = seq!['\'', '\''];
    let inner = text::replaced(value, '\'', two);
    let tail = (quoted(value) + rest).skip(1);
    assert(tail =~= inner + seq!['\''] + rest);
    if value.len() == 0 {
        assert(inner =~= Seq::<char>::empty());
        assert(tail[0] == '\'');
        if tail.len() >= 2 {
            assert(tail[1] == rest[0]);
        }
        assert(value =~= Seq::<char>::empty());
    } else {
        lemma_replaced_front(value, '\'', two);
        let shorter = value.skip(1);
        law_quoted_text_reads_back(shorter, rest);
        let next = (quoted(shorter) + rest).skip(1);
        assert(next =~= text::replaced(shorter, '\'', two) + seq!['\''] + rest);
        assert(value =~= seq![value[0]] + shorter);
        if value[0] == '\'' {
            assert(tail =~= two + next);
            assert(tail.skip(2) =~= next);
            assert(tail[0] == '\'' && tail[1] == '\'');
        } else {
            assert(tail =~= seq![value[0]] + next);
            assert(tail.skip(1) =~= next);
            assert(tail[0] == value[0]);
        }
    }
}

proof fn lemma_script_body()
    ensures
        SCRIPT_BODY@.len() == 0 || SCRIPT_BODY@[0] != '\'',
{
    reveal_strlit("\nGet-CimInstance Win32_Process -Filter \"Name = 'frpc.exe'\" | Where-Object {\n  if (-not $_.ExecutablePath) { $false } else {\n    $path = ($_.ExecutablePath -replace '\\\\', '/').TrimEnd('/').ToLowerInvariant()\n    $commandLine = if ($_.CommandLine) { ($_.CommandLine -replace '\\\\', '/').ToLowerInvariant() } else { '' }\n    $inWorkspace = (-not $workspace) -or $commandLine.Contains($workspace)\n    $path.EndsWith('/frpc.exe') -and $path.StartsWith($root + '/') -and $inWorkspace\n  }\n} | ForEach-Object {\n  Stop-Process -Id $_.ProcessId -Force -ErrorAction Stop\n  Write-Output (\"已停止残留 frpc.exe，PID \" + $_.ProcessId)\n}");
}

proof fn lemma_slashed(s: Seq<char>, i: int)
    requires
        0 <= i < s.len(),
    ensures
        text::replaced(s, '\\', seq!['/']).len() == s.len(),
        text::replaced(s, '\\', seq!['/'])[i] == if s[i] == '\\' {
            '/'
        } else {
            s[i]
        },
    decreases s.len(),
{
    let init = s.drop_last();
    if init.len() > 0 {
        lemma_slashed(init, if i < init.len() { i } else { 0 });
    } else {
        assert(text::replaced(init, '\\', seq!['/']).len() == 0);
    }
}

/// A normalized path has each character of the path in its place, backslashes as
/// slashes and ASCII letters in lower case; only slashes and backslashes at its
/// end are dropped.
pub proof fn law_paths_are_normalized(path: Seq<char>, i: int)
    requires
        0 <= i < path.len(),
    ensures
        normalized(path).len() <= path.len(),
        i < normalized(path).len() ==> normalized(path)[i] == text::lower_char(
            if path[i] == '\\' {
                '/'
            } else {
                path[i]
            },
        ),
        i >= normalized(path).len() ==> path[i] == '/' || path[i] == '\\',
        normalized(path).len() > 0 ==> normalized(path).last() != '/',
{
    let p = |c: char| c == '/';
    let slashed = text::replaced(path, '\\', seq!['/']);
    let kept = text::trimmed_end(slashed, p);
    lemma_slashed(path, i);
    text::law_end_is_trimmed(slashed, p);
    if i < kept.len() {
        assert(kept[i] == slashed.take(kept.len() as int)[i]);
        text::law_letters_are_lowered(kept, i);
    } else {
        assert(p(slashed[i]));
    }
    if kept.len() > 0 {
        text::law_letters_are_lowered(kept, kept.len() - 1);
        let last = kept.last();
        assert(!p(last));
        assert(normalized(path).last() == text::lower_char(last));
    }
}

/// Paths that differ in the case of ASCII letters, in slashes for backslashes, or
/// in slashes at the end are the same normalized path.
pub proof fn law_same_places_have_the_same_normalized_path(path: Seq<char>)
    ensures
        normalized(path.push('/')) == normalized(path),
        normalized(path.push('\\')) == normalized(path),
        normalized(Seq::<char>::empty()).len() == 0,
{
    let two = seq!['/'];
    let slashed = text::replaced(path, '\\', two);
    assert(path.push('/').drop_last() =~= path);
    assert(path.push('\\').drop_last() =~= path);
    assert(slashed.push('/').drop_last() =~= slashed);
    assert(slashed + two =~= slashed.push('/'));
}

/// The script names the application's data directory, and the directory of the
/// workspace or none, each quoted so that it is read back as it is.
pub proof fn law_script_names_the_directories(
    app_data_dir: Seq<char>,
    workspace_dir: Option<Seq<char>>,
)
    ensures
        ({
            let script = cleanup_script(app_data_dir, workspace_dir);
            let head = "$root = "@;
            let root = script.skip(head.len() as int);
            let rest = script.skip(
                (head + quoted(normalized(app_data_dir)) + "\n$workspace = "@).len() as int,
            );
            &&& text::begins(script, head)
            &&& text::begins(
                script,
                head + quoted(normalized(app_data_dir)) + "\n$workspace = "@,
            )
            &&& text::ends(script, SCRIPT_BODY@)
            &&& root.len() > 0 && root[0] == '\''
            &&& unquoted(root.skip(1)) == normalized(app_data_dir)
            &&& workspace_dir is Some ==> rest[0] == '\'' && unquoted(rest.skip(1)) == normalized(
                workspace_dir->0,
            )
            &&& workspace_dir is None ==> rest == "$null"@ + SCRIPT_BODY@
        }),
{
    let script = cleanup_script(app_data_dir, workspace_dir);
    let head = "$root = "@;
    let dir = normalized(app_data_dir);
    let middle = "\n$workspace = "@;
    let place = match workspace_dir {
        Some(d) => quoted(normalized(d)),
        None => "$null"@,
    };
    let front = head + quoted(dir) + middle;
    let rest = middle + place + SCRIPT_BODY@;
    reveal_strlit("\n$workspace = ");
    assert(rest[0] == '\n');
    law_quoted_text_reads_back(dir, rest);
    assert(script.skip(head.len() as int) =~= quoted(dir) + rest);
    assert(script.take(head.len() as int) =~= head);
    assert(script.take(front.len() as int) =~= front);
    assert(script.skip(front.len() as int) =~= place + SCRIPT_BODY@);
    assert(script.skip(script.len() - SCRIPT_BODY@.len()) =~= SCRIPT_BODY@);
    assert(quoted(dir).len() >= 2);
    assert((quoted(dir) + rest)[0] == quoted(dir)[0]);
    if workspace_dir is Some {
        lemma_script_body();
        law_quoted_text_reads_back(normalized(workspace_dir->0), SCRIPT_BODY@);
        assert(quoted(normalized(workspace_dir->0)).len() >= 2);
        assert((place + SCRIPT_BODY@)[0] == place[0]);
    }
}

/// The log book with the output of a cleanup, without blank parts.
pub open spec fn output_logged(
    book: LogBookView,
    workspace_id: Seq<char>,
    output: Seq<char>,
    errors: Seq<char>,
    now: u64,
) -> LogBookView {
    let first = if text::trimmed(output).len() > 0 {
        logs::appended(book, workspace_id, text::trimmed(output), now)
    } else {
        book
    };
    if text::trimmed(errors).len() > 0 {
        logs::appended(first, workspace_id, text::trimmed(errors), now)
    } else {
        first
    }
}

/// The output of a cleanup and behind it its errors are logged, each without the
/// white space around it, and blank ones not at all.
pub proof fn law_output_is_logged_without_blanks(
    book: LogBookView,
    workspace_id: Seq<char>,
    output: Seq<char>,
    errors: Seq<char>,
    now: u64,
)
    requires
        !logs::due(book, workspace_id, now),
        logs::lines_of(book, workspace_id).len() <= 200,
    ensures
        ({
            let before = logs::lines_of(book, workspace_id);
            let after = logs::lines_of(
                output_logged(book, workspace_id, output, errors, now),
                workspace_id,
            );
            let told = text::trimmed(output);
            let failed = text::trimmed(errors);
            &&& told.len() == 0 && failed.len() == 0 ==> after == before
            &&& told.len() > 0 && failed.len() == 0 ==> after == before.push(told)
            &&& told.len() == 0 && failed.len() > 0 ==> after == before.push(failed)
            &&& told.len() > 0 && failed.len() > 0 ==> after == before.push(told).push(failed)
        }),
        output_logged(book, workspace_id, output, errors, now).policies == book.policies,
        output_logged(book, workspace_id, output, errors, now).logs.remove(workspace_id)
            == book.logs.remove(workspace_id),
{
    let told = text::trimmed(output);
    logs::law_line_follows_the_earlier_ones(book, workspace_id, told, now);
    let first = if told.len() > 0 {
        logs::appended(book, workspace_id, told, now)
    } else {
        book
    };
    logs::law_line_follows_the_earlier_ones(first, workspace_id, text::trimmed(errors), now);
    assert(output_logged(book, workspace_id, output, errors, now).logs.remove(workspace_id)
        =~= book.logs.remove(workspace_id));
}

/// The output of a cleanup is logged before its errors, also where a cleanup of
/// the log is due.
pub proof fn law_output_comes_before_the_errors(
    book: LogBookView,
    workspace_id: Seq<char>,
    output: Seq<char>,
    errors: Seq<char>,
    now: u64,
)
    ensures
        ({
            let after = output_logged(book, workspace_id, output, errors, now);
            let told = text::trimmed(output);
            let failed = text::trimmed(errors);
            &&& told.len() == 0 && failed.len() == 0 ==> after == book
            &&& told.len() > 0 && failed.len() == 0 ==> after == logs::appended(
                book,
                workspace_id,
                told,
                now,
            )
            &&& told.len() == 0 && failed.len() > 0 ==> after == logs::appended(
                book,
                workspace_id,
                failed,
                now,
            )
            &&& told.len() > 0 && failed.len() > 0 ==> after == logs::appended(
                logs::appended(book, workspace_id, told, now),
                workspace_id,
                failed,
                now,
            )
        }),
{
}

/// Logs the output of a cleanup and tells whether it succeeded. Without a
/// workspace, the cleanup was one of all processes, and is logged for the
/// default workspace.
pub fn cleanup_finished(
    book: &mut LogBook,
    workspace_id: Option<&str>,
    output: &str,
    errors: &str,
    succeeded: bool,
    now: u64,
) -> (result: Result<(), AppError>)
    requires
        old(book).wf(),
    ensures
        final(book).wf(),
        final(book)@ == output_logged(
            old(book)@,
            match workspace_id {
                Some(id) => id@,
                None => DEFAULT_WORKSPACE_ID@,
            },
            output@,
            errors@,
            now,
        ),
        match result {
            Ok(_) => succeeded,
            Err(e) => !succeeded && match workspace_id {
                Some(_) => e matches AppError::WorkspaceCleanupFailed(shown) && shown@
                    == text::trimmed(errors@),
                None => e matches AppError::CleanupFailed(shown) && shown@ == text::trimmed(
                    errors@,
                ),
            },
        },
{
    let stdout = text::trim_text(output);
    let stderr = text::trim_text(errors);
    let log_id = match workspace_id {
        Some(id) => id,
        None => DEFAULT_WORKSPACE_ID,
    };
    if text::chars_of(stdout.as_str()).len() > 0 {
        book.append_log(log_id, stdout, now);
    }
    if text::chars_of(stderr.as_str()).len() > 0 {
        book.append_log(log_id, stderr.clone(), now);
    }
    if succeeded {
        Ok(())
    } else {
        match workspace_id {
            Some(_) => Err(AppError::WorkspaceCleanupFailed(stderr)),
            None => Err(AppError::CleanupFailed(stderr)),
        }
    }
}

} // verus!
