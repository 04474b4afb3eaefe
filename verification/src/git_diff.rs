//! Git: the commands that tell of uncommitted changes, and what to make of their answers.
//!
//! Running a command is left to the caller, who hands in what came of it.

use crate::diff_parser;
use crate::number;
use crate::text;
use vstd::prelude::*;

verus! {

/// A diff, and what went wrong while it was read.
#[derive(Debug, PartialEq, Eq)]
pub struct GitDiffResult {
    pub text: String,
    pub error: Option<String>,
}

/// The model of a `GitDiffResult`.
#[verifier::ext_equal]
pub struct GitDiffView {
    pub text: Seq<char>,
    pub error: Option<Seq<char>>,
}

impl View for GitDiffResult {
    type V = GitDiffView;

    open spec fn view(&self) -> GitDiffView {
        GitDiffView { text: self.text@, error: diff_parser::opt_text(self.error) }
    }
}

impl Clone for GitDiffResult {
    fn clone(&self) -> (copy: Self)
        ensures
            copy == *self,
    {
        GitDiffResult { text: self.text.clone(), error: diff_parser::copy_opt(&self.error) }
    }
}

/// The models of a sequence of results.
pub open spec fn result_views(results: Seq<GitDiffResult>) -> Seq<GitDiffView> {
    results.map_values(|result: GitDiffResult| result@)
}

/// Which changes to read.
#[derive(Debug, PartialEq, Eq)]
pub struct DiffOptions {
    pub context: usize,
    pub include_untracked: bool,
    pub max_untracked_bytes: u64,
    pub pathspecs: Vec<String>,
}

/// The model of `DiffOptions`.
#[verifier::ext_equal]
pub struct DiffOptionsView {
    pub context: usize,
    pub include_untracked: bool,
    pub max_untracked_bytes: u64,
    pub pathspecs: Seq<Seq<char>>,
}

impl View for DiffOptions {
    type V = DiffOptionsView;

    open spec fn view(&self) -> DiffOptionsView {
        DiffOptionsView {
            context: self.context,
            include_untracked: self.include_untracked,
            max_untracked_bytes: self.max_untracked_bytes,
            pathspecs: text::texts(self.pathspecs@),
        }
    }
}

/// Appends copies of strings to strings.
fn extend_strings(output: &mut Vec<String>, more: &[String])
    ensures
        text::texts(final(output)@) == text::texts(old(output)@) + text::texts(more@),
{
    let ghost before = text::texts(output@);
    let mut i: usize = 0;
    assert(text::texts(output@) =~= before + text::texts(more@).take(0));
    while i < more.len()
        invariant
            i <= more@.len(),
            text::texts(output@) == before + text::texts(more@).take(i as int),
        decreases more@.len() - i,
    {
        let ghost previous = output@;
        output.push(more[i].clone());
        assert(text::texts(output@) =~= text::texts(previous).push(more@[i as int]@));
        assert(text::texts(output@) =~= before + text::texts(more@).take(i + 1));
        i += 1;
    }
    assert(text::texts(more@).take(more@.len() as int) =~= text::texts(more@));
}

impl Clone for DiffOptions {
    fn clone(&self) -> (copy: Self)
        ensures
            copy@ == self@,
    {
        let mut pathspecs: Vec<String> = Vec::new();
        extend_strings(&mut pathspecs, self.pathspecs.as_slice());
        assert(text::texts(pathspecs@) =~= text::texts(self.pathspecs@));
        DiffOptions {
            context: self.context,
            include_untracked: self.include_untracked,
            max_untracked_bytes: self.max_untracked_bytes,
            pathspecs,
        }
    }
}

/// What a Git command that ran left behind: its exit code, where it has one, and its output.
#[derive(Debug)]
pub struct GitOutput {
    pub code: Option<i32>,
    pub stdout: Vec<u8>,
    pub stderr: Vec<u8>,
}

/// The model of a `GitOutput`.
#[verifier::ext_equal]
pub struct GitOutputView {
    pub code: Option<i32>,
    pub stdout: Seq<u8>,
    pub stderr: Seq<u8>,
}

impl View for GitOutput {
    type V = GitOutputView;

    open spec fn view(&self) -> GitOutputView {
        GitOutputView { code: self.code, stdout: self.stdout@, stderr: self.stderr@ }
    }
}

/// What comes of running a Git command: its output, or why it could not be run.
pub open spec fn run_view(run: Result<GitOutput, String>) -> Result<GitOutputView, Seq<char>> {
    match run {
        Ok(output) => Ok(output@),
        Err(error) => Err(error@),
    }
}

/// The command ran and exited with zero.
pub open spec fn succeeded(run: Result<GitOutputView, Seq<char>>) -> bool {
    run matches Ok(output) && output.code == Some(0i32)
}

/// Whether a command ran and exited with zero.
pub fn has_succeeded(run: &Result<GitOutput, String>) -> (result: bool)
    ensures
        result == succeeded(run_view(*run)),
{
    match run {
        Ok(output) => match output.code {
            Some(code) => code == 0,
            None => false,
        },
        Err(_) => false,
    }
}

/// The arguments of the Git command whose outcome `is_git_repo` takes.
pub fn repo_probe_args() -> (args: Vec<String>)
    ensures
        text::texts(args@) == seq!["rev-parse"@, "--is-inside-work-tree"@],
{
    let args = vec!["rev-parse".to_string(), "--is-inside-work-tree".to_string()];
    assert(text::texts(args@) =~= seq!["rev-parse"@, "--is-inside-work-tree"@]);
    args
}

/// Whether this is a Git work tree, by the outcome of the command with `repo_probe_args`.
pub fn is_git_repo(run: &Result<GitOutput, String>) -> (result: bool)
    ensures
        result == succeeded(run_view(*run)),
{
    has_succeeded(run)
}

/// The arguments of the command that tells whether there is a commit.
pub open spec fn head_probe_args() -> Seq<Seq<char>> {
    seq!["rev-parse"@, "--verify"@, "HEAD"@]
}

/// The arguments of a command that compares: `extra` says with what.
pub open spec fn diff_command(context: usize, extra: Seq<Seq<char>>, pathspecs: Seq<Seq<char>>) -> Seq<
    Seq<char>,
> {
    seq![
        "diff"@,
        "--no-color"@,
        "--no-ext-diff"@,
        "--unified="@ + number::decimal(context as nat),
    ] + extra + seq!["--"@] + pathspecs
}

/// Builds the arguments of a command that compares.
pub fn diff_args(context: usize, extra: Option<&str>, pathspecs: &[String]) -> (args: Vec<String>)
    ensures
        text::texts(args@) == diff_command(
            context,
            match extra {
                Some(extra) => seq![extra@],
                None => seq![],
            },
            text::texts(pathspecs@),
        ),
{
    let mut unified = "--unified=".to_string();
    unified.push_str(number::decimal_string(context as u64).as_str());
    let mut args = vec![
        "diff".to_string(),
        "--no-color".to_string(),
        "--no-ext-diff".to_string(),
        unified,
    ];
    if let Some(extra) = extra {
        args.push(extra.to_string());
    }
    args.push("--".to_string());
    let ghost head = text::texts(args@);
    extend_strings(&mut args, pathspecs);
    assert(head =~= seq![
        "diff"@,
        "--no-color"@,
        "--no-ext-diff"@,
        "--unified="@ + number::decimal(context as nat),
    ] + (match extra {
        Some(extra) => seq![extra@],
        None => seq![],
    }) + seq!["--"@]);
    args
}

/// The arguments of the command that lists the untracked files.
pub open spec fn list_command(pathspecs: Seq<Seq<char>>) -> Seq<Seq<char>> {
    seq!["ls-files"@, "--others"@, "--exclude-standard"@, "-z"@, "--"@] + pathspecs
}

/// Builds the arguments of the command that lists the untracked files.
pub fn list_args(pathspecs: &[String]) -> (args: Vec<String>)
    ensures
        text::texts(args@) == list_command(text::texts(pathspecs@)),
{
    let mut args = vec![
        "ls-files".to_string(),
        "--others".to_string(),
        "--exclude-standard".to_string(),
        "-z".to_string(),
        "--".to_string(),
    ];
    assert(text::texts(args@) =~= seq![
        "ls-files"@,
        "--others"@,
        "--exclude-standard"@,
        "-z"@,
        "--"@,
    ]);
    extend_strings(&mut args, pathspecs);
    args
}

/// What `String::from_utf8_lossy` makes of bytes.
pub uninterp spec fn lossy_text(bytes: Seq<u8>) -> Seq<char>;

/// `String::from_utf8_lossy` decodes bytes; what is not well-formed UTF-8 it replaces, in a way
/// that `lossy_text` names. Well-formed UTF-8 gives the characters that it encodes.
#[verifier::external_body]
pub(crate) fn decode_lossy(bytes: &[u8]) -> (s: String)
    ensures
        s@ == lossy_text(bytes@),
        vstd::utf8::valid_utf8(bytes@) ==> s@ == vstd::utf8::decode_utf8(bytes@),
{
    String::from_utf8_lossy(bytes).into_owned()
}

/// The message of a command that failed: what it wrote, or `otherwise` where it wrote nothing.
pub open spec fn failure_text(stderr: Seq<char>, otherwise: Seq<char>) -> Seq<char> {
    if text::trim(stderr).len() == 0 {
        otherwise
    } else {
        text::trim(stderr)
    }
}

/// Writes the message of a command that failed.
pub fn failure_message(stderr: &str, otherwise: &str) -> (message: String)
    ensures
        message@ == failure_text(stderr@, otherwise@),
{
    let chars = text::chars_of(stderr);
    let trimmed = text::trim_chars(chars.as_slice());
    if trimmed.len() == 0 {
        otherwise.to_string()
    } else {
        text::string_of(trimmed)
    }
}

/// The diff that a comparison printed. Exit code one only says that there are differences.
pub open spec fn comparison(code: Option<i32>, stdout: Seq<char>, stderr: Seq<char>) -> GitDiffView {
    GitDiffView {
        text: stdout,
        error: if code == Some(0i32) || code == Some(1i32) {
            None
        } else {
            Some(failure_text(stderr, "git diff failed"@))
        },
    }
}

/// Takes the diff that a comparison printed.
pub fn diff_of_output(code: Option<i32>, stdout: String, stderr: &str) -> (result: GitDiffResult)
    ensures
        result@ == comparison(code, stdout@, stderr@),
{
    let fine = match code {
        Some(code) => code == 0 || code == 1,
        None => false,
    };
    if fine {
        GitDiffResult { text: stdout, error: None }
    } else {
        GitDiffResult { text: stdout, error: Some(failure_message(stderr, "git diff failed")) }
    }
}

/// A result that is nothing but an error.
pub open spec fn error_view(error: Seq<char>) -> GitDiffView {
    GitDiffView { text: seq![], error: Some(error) }
}

/// Makes a result of an error.
pub fn diff_error(error: String) -> (result: GitDiffResult)
    ensures
        result@ == error_view(error@),
{
    GitDiffResult { text: String::new(), error: Some(error) }
}

/// The diff that comes of running a comparison.
pub open spec fn comparison_result(run: Result<GitOutputView, Seq<char>>) -> GitDiffView {
    match run {
        Ok(output) => comparison(
            output.code,
            lossy_text(output.stdout),
            lossy_text(output.stderr),
        ),
        Err(error) => error_view(error),
    }
}

/// Takes the diff that comes of running a comparison.
pub fn run_git_diff(run: Result<GitOutput, String>) -> (result: GitDiffResult)
    ensures
        result@ == comparison_result(run_view(run)),
{
    match run {
        Ok(output) => {
            let stdout = decode_lossy(output.stdout.as_slice());
            let stderr = decode_lossy(output.stderr.as_slice());
            diff_of_output(output.code, stdout, stderr.as_str())
        },
        Err(error) => diff_error(error),
    }
}

/// The position of the first null byte, or the number of bytes where there is none.
pub open spec fn nul_pos(bytes: Seq<u8>) -> int
    decreases bytes.len(),
{
    if bytes.len() == 0 || bytes[0] == 0 {
        0
    } else {
        1 + nul_pos(bytes.drop_first())
    }
}

/// `nul_pos` is the first position that holds a null byte.
pub proof fn lemma_nul_pos(bytes: Seq<u8>)
    ensures
        0 <= nul_pos(bytes) <= bytes.len(),
        nul_pos(bytes) < bytes.len() ==> bytes[nul_pos(bytes)] == 0,
        forall|j: int| 0 <= j < nul_pos(bytes) ==> bytes[j] != 0,
    decreases bytes.len(),
{
    if bytes.len() != 0 && bytes[0] != 0 {
        lemma_nul_pos(bytes.drop_first());
        assert forall|j: int| 0 <= j < nul_pos(bytes) implies bytes[j] != 0 by {
            if j > 0 {
                assert(bytes.drop_first()[j - 1] != 0);
            }
        }
    }
}

/// The non-empty parts between null bytes.
pub open spec fn nul_parts(bytes: Seq<u8>) -> Seq<Seq<u8>>
    decreases bytes.len(),
{
    if bytes.len() == 0 {
        seq![]
    } else {
        proof {
            lemma_nul_pos(bytes);
        }
        let k = nul_pos(bytes);
        if k == 0 {
            nul_parts(bytes.skip(1))
        } else if k == bytes.len() {
            seq![bytes]
        } else {
            seq![bytes.take(k)] + nul_parts(bytes.skip(k + 1))
        }
    }
}

/// Splits bytes into the non-empty parts between null bytes.
pub fn split_nul(bytes: &[u8]) -> (parts: Vec<Vec<u8>>)
    ensures
        parts@.map_values(|part: Vec<u8>| part@) == nul_parts(bytes@),
{
    let mut parts: Vec<Vec<u8>> = Vec::new();
    let mut pos: usize = 0;
    let ghost view = |part: Vec<u8>| part@;
    assert(bytes@.skip(0) =~= bytes@);
    assert(parts@.map_values(view) + nul_parts(bytes@) =~= nul_parts(bytes@));
    while pos < bytes.len()
        invariant
            pos <= bytes@.len(),
            view == |part: Vec<u8>| part@,
            parts@.map_values(view) + nul_parts(bytes@.skip(pos as int)) == nul_parts(bytes@),
        decreases bytes@.len() - pos,
    {
        let ghost rest = bytes@.skip(pos as int);
        let ghost before = parts@;
        let mut part: Vec<u8> = Vec::new();
        let mut end: usize = pos;
        while end < bytes.len() && bytes[end] != 0
            invariant
                pos <= end <= bytes@.len(),
                forall|j: int| pos <= j < end ==> bytes@[j] != 0,
                part@ == bytes@.subrange(pos as int, end as int),
            decreases bytes@.len() - end,
        {
            part.push(bytes[end]);
            assert(part@ =~= bytes@.subrange(pos as int, end + 1));
            end += 1;
        }
        proof {
            lemma_nul_pos(rest);
            let k = end - pos;
            assert(forall|j: int| 0 <= j < k ==> rest[j] != 0);
            assert(k < rest.len() ==> rest[k] == bytes@[end as int]);
            assert(nul_pos(rest) == k);
            assert(part@ =~= rest.take(k));
            if k < rest.len() {
                assert(bytes@.skip(end + 1) =~= rest.skip(k + 1));
            } else {
                assert(rest.take(k) =~= rest);
            }
        }
        if end > pos {
            parts.push(part);
            assert(parts@.map_values(view) =~= before.map_values(view).push(
                rest.take(end - pos),
            ));
        }
        if end < bytes.len() {
            pos = end + 1;
            assert(parts@.map_values(view) + nul_parts(bytes@.skip(pos as int))
                =~= before.map_values(view) + nul_parts(rest));
        } else {
            pos = end;
            assert(bytes@.skip(pos as int) =~= seq![]);
            assert(parts@.map_values(view) + nul_parts(bytes@.skip(pos as int))
                =~= before.map_values(view) + nul_parts(rest));
        }
    }
    assert(parts@.map_values(view) + nul_parts(bytes@.skip(pos as int))
        =~= parts@.map_values(view));
    parts
}

/// The paths in a list in which a null byte ends each.
pub open spec fn nul_paths(bytes: Seq<u8>) -> Seq<Seq<char>> {
    nul_parts(bytes).map_values(|part: Seq<u8>| lossy_text(part))
}

/// Reads the paths of a list in which a null byte ends each.
pub fn split_nul_paths(output: &[u8]) -> (paths: Vec<String>)
    ensures
        text::texts(paths@) == nul_paths(output@),
        forall|i: int|
            0 <= i < paths@.len() && vstd::utf8::valid_utf8(nul_parts(output@)[i])
                ==> (#[trigger] paths@[i])@ == vstd::utf8::decode_utf8(nul_parts(output@)[i]),
{
    let parts = split_nul(output);
    let ghost all = nul_parts(output@);
    assert(all.len() == parts@.len());
    let mut paths: Vec<String> = Vec::new();
    let mut i: usize = 0;
    while i < parts.len()
        invariant
            i <= parts@.len(),
            all == parts@.map_values(|part: Vec<u8>| part@),
            paths@.len() == i,
            forall|j: int| 0 <= j < i ==> (#[trigger] paths@[j])@ == lossy_text(all[j]),
            forall|j: int|
                0 <= j < i && vstd::utf8::valid_utf8(all[j]) ==> (#[trigger] paths@[j])@
                    == vstd::utf8::decode_utf8(all[j]),
        decreases parts@.len() - i,
    {
        assert(all[i as int] == parts@[i as int]@);
        paths.push(decode_lossy(parts[i].as_slice()));
        i += 1;
    }
    assert(text::texts(paths@) =~= nul_paths(output@));
    paths
}

/// The untracked files, by the outcome of listing them, or why they could not be listed.
pub open spec fn listed_paths(run: Result<GitOutputView, Seq<char>>) -> Result<
    Seq<Seq<char>>,
    Seq<char>,
> {
    match run {
        Ok(output) => if output.code == Some(0i32) {
            Ok(nul_paths(output.stdout))
        } else {
            Err(failure_text(lossy_text(output.stderr), "git ls-files failed"@))
        },
        Err(error) => Err(error),
    }
}

/// Takes the untracked files from the outcome of listing them.
pub fn list_untracked_files(run: Result<GitOutput, String>) -> (paths: Result<Vec<String>, String>)
    ensures
        match paths {
            Ok(paths) => listed_paths(run_view(run)) == Ok::<Seq<Seq<char>>, Seq<char>>(
                text::texts(paths@),
            ),
            Err(error) => listed_paths(run_view(run)) == Err::<Seq<Seq<char>>, Seq<char>>(error@),
        },
{
    let fine = has_succeeded(&run);
    match run {
        Ok(output) => {
            if fine {
                Ok(split_nul_paths(output.stdout.as_slice()))
            } else {
                let stderr = decode_lossy(output.stderr.as_slice());
                Err(failure_message(stderr.as_str(), "git ls-files failed"))
            }
        },
        Err(error) => Err(error),
    }
}

/// The texts of the results that have one.
pub open spec fn nonempty_texts(results: Seq<GitDiffView>) -> Seq<Seq<char>>
    decreases results.len(),
{
    if results.len() == 0 {
        seq![]
    } else if results.last().text.len() == 0 {
        nonempty_texts(results.drop_last())
    } else {
        nonempty_texts(results.drop_last()).push(results.last().text)
    }
}

/// The errors of the results that have one.
pub open spec fn errors_of(results: Seq<GitDiffView>) -> Seq<Seq<char>> {
    results.filter_map(|result: GitDiffView| result.error)
}

/// Several results as one: the texts one under the other, and the errors side by side.
pub open spec fn combined(results: Seq<GitDiffView>) -> GitDiffView {
    GitDiffView {
        text: text::join(nonempty_texts(results), "\n"@),
        error: if errors_of(results).len() == 0 {
            None
        } else {
            Some(text::join(errors_of(results), "; "@))
        },
    }
}

/// Makes one result of several.
pub fn combine_diff_results(results: Vec<GitDiffResult>) -> (result: GitDiffResult)
    ensures
        result@ == combined(result_views(results@)),
{
    let mut parts: Vec<String> = Vec::new();
    let mut errors: Vec<String> = Vec::new();
    let ghost all = result_views(results@);
    let mut i: usize = 0;
    assert(all.take(0) =~= seq![]);
    assert(text::texts(parts@) =~= nonempty_texts(all.take(0)));
    assert(text::texts(errors@) =~= errors_of(all.take(0)));
    while i < results.len()
        invariant
            i <= results@.len(),
            all == result_views(results@),
            text::texts(parts@) == nonempty_texts(all.take(i as int)),
            text::texts(errors@) == errors_of(all.take(i as int)),
        decreases results@.len() - i,
    {
        let ghost parts_before = parts@;
        let ghost errors_before = errors@;
        assert(all.take(i + 1).drop_last() =~= all.take(i as int));
        assert(all.take(i + 1).last() == results@[i as int]@);
        if !results[i].text.as_str().is_empty() {
            parts.push(results[i].text.clone());
            assert(text::texts(parts@) =~= text::texts(parts_before).push(
                results@[i as int].text@,
            ));
        }
        if let Some(error) = &results[i].error {
            errors.push(error.clone());
            assert(text::texts(errors@) =~= text::texts(errors_before).push(error@));
        }
        i += 1;
    }
    assert(all.take(results@.len() as int) =~= all);
    assert(errors@.len() == errors_of(all).len());
    GitDiffResult {
        text: text::join_strings(parts.as_slice(), "\n"),
        error: if errors.len() == 0 {
            None
        } else {
            Some(text::join_strings(errors.as_slice(), "; "))
        },
    }
}

} // verus!
