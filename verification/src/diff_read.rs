//! One reading of the uncommitted changes, step by step.
//!
//! A `DiffRead` asks for one thing after the other: the outcome of a Git command, what a path is,
//! the target of a link, the content of a file. Each answer leads to the next request or to the
//! result.

use crate::git_diff;
use crate::git_diff::{
    DiffOptions, DiffOptionsView, GitDiffResult, GitDiffView, GitOutput, GitOutputView,
};
use crate::number;
use crate::text;
use crate::untracked;
use vstd::prelude::*;

verus! {

/// Something that a reading needs to know.
#[derive(Debug, PartialEq, Eq)]
pub enum Request {
    /// The outcome of Git with these arguments.
    Git(Vec<String>),
    /// What the path is, without following a link.
    Inspect(String),
    /// The target of the link.
    ReadLink(String),
    /// The content of the file.
    ReadFile(String),
}

/// The model of a `Request`.
#[verifier::ext_equal]
pub enum RequestView {
    Git(Seq<Seq<char>>),
    Inspect(Seq<char>),
    ReadLink(Seq<char>),
    ReadFile(Seq<char>),
}

impl View for Request {
    type V = RequestView;

    open spec fn view(&self) -> RequestView {
        match self {
            Request::Git(args) => RequestView::Git(text::texts(args@)),
            Request::Inspect(path) => RequestView::Inspect(path@),
            Request::ReadLink(path) => RequestView::ReadLink(path@),
            Request::ReadFile(path) => RequestView::ReadFile(path@),
        }
    }
}

/// What a path is.
#[derive(Clone, Copy, Debug)]
pub enum FileInfo {
    /// A symbolic link.
    Symlink,
    /// A regular file of `len` bytes, with its permission bits where the system has them.
    Regular { len: u64, permissions: Option<u32> },
    /// Anything else.
    Other,
}

/// The answer to a request. A failure comes with its message.
#[derive(Debug)]
pub enum Reply {
    Git(Result<GitOutput, String>),
    Inspected(Result<FileInfo, String>),
    Link(Result<String, String>),
    Content(Result<Vec<u8>, String>),
}

/// The model of a `Reply`.
#[verifier::ext_equal]
pub enum ReplyView {
    Git(Result<GitOutputView, Seq<char>>),
    Inspected(Result<FileInfo, Seq<char>>),
    Link(Result<Seq<char>, Seq<char>>),
    Content(Result<Seq<u8>, Seq<char>>),
}

impl View for Reply {
    type V = ReplyView;

    open spec fn view(&self) -> ReplyView {
        match self {
            Reply::Git(run) => ReplyView::Git(git_diff::run_view(*run)),
            Reply::Inspected(Ok(info)) => ReplyView::Inspected(Ok(*info)),
            Reply::Inspected(Err(error)) => ReplyView::Inspected(Err(error@)),
            Reply::Link(Ok(target)) => ReplyView::Link(Ok(target@)),
            Reply::Link(Err(error)) => ReplyView::Link(Err(error@)),
            Reply::Content(Ok(bytes)) => ReplyView::Content(Ok(bytes@)),
            Reply::Content(Err(error)) => ReplyView::Content(Err(error@)),
        }
    }
}

/// The reply is of the kind that the request asks for.
pub open spec fn answers(reply: ReplyView, request: RequestView) -> bool {
    match request {
        RequestView::Git(_) => reply is Git,
        RequestView::Inspect(_) => reply is Inspected,
        RequestView::ReadLink(_) => reply is Link,
        RequestView::ReadFile(_) => reply is Content,
    }
}

/// How far a reading has come.
pub enum Stage {
    /// Whether there is a commit.
    Head,
    /// The changes since the last commit.
    SinceHead,
    /// The staged changes of a repository without a commit.
    Staged,
    /// Its unstaged changes.
    Unstaged { staged: GitDiffResult },
    /// Which files are untracked.
    Listing { changes: GitDiffResult },
    /// What the untracked file `paths[next]` is; the files before it are done.
    Inspecting { changes: GitDiffResult, done: Vec<GitDiffResult>, paths: Vec<String>, next: usize },
    /// Where the link `paths[next]` leads.
    Linking { changes: GitDiffResult, done: Vec<GitDiffResult>, paths: Vec<String>, next: usize },
    /// What the file `paths[next]` holds.
    Reading {
        changes: GitDiffResult,
        done: Vec<GitDiffResult>,
        paths: Vec<String>,
        next: usize,
        permissions: Option<u32>,
    },
    /// Nothing: this is the result.
    Done(GitDiffResult),
}

/// The model of a `Stage`: of the paths, those that are not done.
#[verifier::ext_equal]
pub enum StageView {
    Head,
    SinceHead,
    Staged,
    Unstaged { staged: GitDiffView },
    Listing { changes: GitDiffView },
    Inspecting { changes: GitDiffView, done: Seq<GitDiffView>, left: Seq<Seq<char>> },
    Linking { changes: GitDiffView, done: Seq<GitDiffView>, left: Seq<Seq<char>> },
    Reading {
        changes: GitDiffView,
        done: Seq<GitDiffView>,
        left: Seq<Seq<char>>,
        permissions: Option<u32>,
    },
    Done(GitDiffView),
}

impl View for Stage {
    type V = StageView;

    open spec fn view(&self) -> StageView {
        match self {
            Stage::Head => StageView::Head,
            Stage::SinceHead => StageView::SinceHead,
            Stage::Staged => StageView::Staged,
            Stage::Unstaged { staged } => StageView::Unstaged { staged: staged@ },
            Stage::Listing { changes } => StageView::Listing { changes: changes@ },
            Stage::Inspecting { changes, done, paths, next } => StageView::Inspecting {
                changes: changes@,
                done: git_diff::result_views(done@),
                left: text::texts(paths@).skip(*next as int),
            },
            Stage::Linking { changes, done, paths, next } => StageView::Linking {
                changes: changes@,
                done: git_diff::result_views(done@),
                left: text::texts(paths@).skip(*next as int),
            },
            Stage::Reading { changes, done, paths, next, permissions } => StageView::Reading {
                changes: changes@,
                done: git_diff::result_views(done@),
                left: text::texts(paths@).skip(*next as int),
                permissions: *permissions,
            },
            Stage::Done(result) => StageView::Done(result@),
        }
    }
}

/// A reading of the uncommitted changes.
pub struct DiffRead {
    options: DiffOptions,
    stage: Stage,
}

/// The model of a `DiffRead`.
#[verifier::ext_equal]
pub struct DiffReadView {
    pub options: DiffOptionsView,
    pub stage: StageView,
}

impl View for DiffRead {
    type V = DiffReadView;

    closed spec fn view(&self) -> DiffReadView {
        DiffReadView { options: self.options@, stage: self.stage@ }
    }
}

/// The mode of a link.
pub open spec fn link_mode() -> Seq<char> {
    "120000"@
}

/// The result for a file that could not be looked at.
pub open spec fn file_failure(path: Seq<char>, error: Seq<char>) -> GitDiffView {
    git_diff::error_view("failed to read untracked file "@ + path + ": "@ + error)
}

/// The result for a link whose target could not be read.
pub open spec fn link_failure(path: Seq<char>, error: Seq<char>) -> GitDiffView {
    git_diff::error_view("failed to read untracked symlink "@ + path + ": "@ + error)
}

/// A result without an error.
pub open spec fn fine(diff: Seq<char>) -> GitDiffView {
    GitDiffView { text: diff, error: None }
}

/// Why a large file is skipped.
pub open spec fn too_large(max_bytes: u64) -> Seq<char> {
    "larger than --max-untracked-bytes ("@ + number::decimal(max_bytes as nat) + ")"@
}

/// The result for a link, by what reading its target gives.
pub open spec fn link_result(path: Seq<char>, target: Result<Seq<char>, Seq<char>>) -> GitDiffView {
    match target {
        Ok(target) => fine(untracked::text_diff(path, link_mode(), target)),
        Err(error) => link_failure(path, error),
    }
}

/// The result for a regular file, by what reading it gives.
pub open spec fn content_result(
    path: Seq<char>,
    permissions: Option<u32>,
    content: Result<Seq<u8>, Seq<char>>,
) -> GitDiffView {
    match content {
        Ok(bytes) => fine(
            untracked::content_diff(path, untracked::mode_text(permissions), bytes),
        ),
        Err(error) => file_failure(path, error),
    }
}

/// The result for a path that needs no further look, by what the path is.
pub open spec fn inspected_result(
    path: Seq<char>,
    info: Result<FileInfo, Seq<char>>,
    max_bytes: u64,
) -> Option<GitDiffView> {
    match info {
        Err(error) => Some(file_failure(path, error)),
        Ok(FileInfo::Symlink) => None,
        Ok(FileInfo::Other) => Some(
            fine(untracked::skipped_diff(path, "100644"@, "not a regular file"@)),
        ),
        Ok(FileInfo::Regular { len, permissions }) => if len > max_bytes {
            Some(
                fine(
                    untracked::skipped_diff(
                        path,
                        untracked::mode_text(permissions),
                        too_large(max_bytes),
                    ),
                ),
            )
        } else {
            None
        },
    }
}

/// The stage after the tracked changes are known.
pub open spec fn after_tracked(options: DiffOptionsView, changes: GitDiffView) -> StageView {
    if options.include_untracked {
        StageView::Listing { changes }
    } else {
        StageView::Done(changes)
    }
}

/// The stage with the files `left` to look at.
pub open spec fn next_file(
    changes: GitDiffView,
    done: Seq<GitDiffView>,
    left: Seq<Seq<char>>,
) -> StageView {
    if left.len() == 0 {
        StageView::Done(git_diff::combined(seq![changes, git_diff::combined(done)]))
    } else {
        StageView::Inspecting { changes, done, left }
    }
}

impl DiffReadView {
    /// What the reading needs to know next; nothing where it is done.
    pub open spec fn request(self) -> Option<RequestView> {
        let context = self.options.context;
        let paths = self.options.pathspecs;
        match self.stage {
            StageView::Head => Some(RequestView::Git(git_diff::head_probe_args())),
            StageView::SinceHead => Some(
                RequestView::Git(git_diff::diff_command(context, seq!["HEAD"@], paths)),
            ),
            StageView::Staged => Some(
                RequestView::Git(git_diff::diff_command(context, seq!["--cached"@], paths)),
            ),
            StageView::Unstaged { .. } => Some(
                RequestView::Git(git_diff::diff_command(context, seq![], paths)),
            ),
            StageView::Listing { .. } => Some(RequestView::Git(git_diff::list_command(paths))),
            StageView::Inspecting { left, .. } => Some(RequestView::Inspect(left[0])),
            StageView::Linking { left, .. } => Some(RequestView::ReadLink(left[0])),
            StageView::Reading { left, .. } => Some(RequestView::ReadFile(left[0])),
            StageView::Done(_) => None,
        }
    }

    /// The stage after the reply to the request.
    pub open spec fn next_stage(self, reply: ReplyView) -> StageView {
        match (self.stage, reply) {
            (StageView::Head, ReplyView::Git(run)) => if git_diff::succeeded(run) {
                StageView::SinceHead
            } else {
                StageView::Staged
            },
            (StageView::SinceHead, ReplyView::Git(run)) => after_tracked(
                self.options,
                git_diff::comparison_result(run),
            ),
            (StageView::Staged, ReplyView::Git(run)) => StageView::Unstaged {
                staged: git_diff::comparison_result(run),
            },
            (StageView::Unstaged { staged }, ReplyView::Git(run)) => after_tracked(
                self.options,
                git_diff::combined(seq![staged, git_diff::comparison_result(run)]),
            ),
            (StageView::Listing { changes }, ReplyView::Git(run)) => match git_diff::listed_paths(
                run,
            ) {
                Ok(paths) => next_file(changes, seq![], paths),
                Err(error) => StageView::Done(
                    git_diff::combined(seq![changes, git_diff::error_view(error)]),
                ),
            },
            (StageView::Inspecting { changes, done, left }, ReplyView::Inspected(info)) => {
                match (
                    inspected_result(left[0], info, self.options.max_untracked_bytes),
                    info,
                ) {
                    (Some(result), _) => next_file(changes, done.push(result), left.drop_first()),
                    (None, Ok(FileInfo::Regular { permissions, .. })) => StageView::Reading {
                        changes,
                        done,
                        left,
                        permissions,
                    },
                    (None, _) => StageView::Linking { changes, done, left },
                }
            },
            (StageView::Linking { changes, done, left }, ReplyView::Link(target)) => next_file(
                changes,
                done.push(link_result(left[0], target)),
                left.drop_first(),
            ),
            (
                StageView::Reading { changes, done, left, permissions },
                ReplyView::Content(content),
            ) => next_file(
                changes,
                done.push(content_result(left[0], permissions, content)),
                left.drop_first(),
            ),
            (stage, _) => stage,
        }
    }

    /// The reading after the reply to its request.
    pub open spec fn after(self, reply: ReplyView) -> DiffReadView {
        DiffReadView { options: self.options, stage: self.next_stage(reply) }
    }

    /// There is a file to look at where the reading looks at one.
    pub open spec fn wf(self) -> bool {
        match self.stage {
            StageView::Inspecting { left, .. } => left.len() > 0,
            StageView::Linking { left, .. } => left.len() > 0,
            StageView::Reading { left, .. } => left.len() > 0,
            _ => true,
        }
    }
}

/// The start of a reading.
pub open spec fn read_start(options: DiffOptionsView) -> DiffReadView {
    DiffReadView { options, stage: StageView::Head }
}

/// Starts to read the uncommitted changes.
pub fn read_uncommitted_diff(options: &DiffOptions) -> (read: DiffRead)
    ensures
        read@ == read_start(options@),
        read.wf(),
{
    DiffRead { options: options.clone(), stage: Stage::Head }
}

/// Writes the result for something that could not be read.
fn failure(what: &str, path: &str, error: &str) -> (result: GitDiffResult)
    ensures
        result@ == git_diff::error_view(what@ + path@ + ": "@ + error@),
{
    let mut message = what.to_string();
    message.push_str(path);
    message.push_str(": ");
    message.push_str(error);
    git_diff::diff_error(message)
}

/// Makes one result of two.
fn combine_two(first: GitDiffResult, second: GitDiffResult) -> (result: GitDiffResult)
    ensures
        result@ == git_diff::combined(seq![first@, second@]),
{
    let both = vec![first, second];
    assert(git_diff::result_views(both@) =~= seq![first@, second@]);
    git_diff::combine_diff_results(both)
}

/// Goes on after the tracked changes are known.
fn go_on(options: &DiffOptions, changes: GitDiffResult) -> (stage: Stage)
    ensures
        stage@ == after_tracked(options@, changes@),
        stage_wf(stage),
{
    if options.include_untracked {
        Stage::Listing { changes }
    } else {
        Stage::Done(changes)
    }
}

/// Goes on with the file `paths[next]`.
fn go_on_with_file(
    changes: GitDiffResult,
    done: Vec<GitDiffResult>,
    paths: Vec<String>,
    next: usize,
) -> (stage: Stage)
    requires
        next <= paths@.len(),
    ensures
        stage@ == next_file(
            changes@,
            git_diff::result_views(done@),
            text::texts(paths@).skip(next as int),
        ),
        stage_wf(stage),
{
    if next == paths.len() {
        Stage::Done(combine_two(changes, git_diff::combine_diff_results(done)))
    } else {
        Stage::Inspecting { changes, done, paths, next }
    }
}

/// Goes on after the file `paths[next]`.
fn finish_file(
    changes: GitDiffResult,
    done: Vec<GitDiffResult>,
    paths: Vec<String>,
    next: usize,
    result: GitDiffResult,
) -> (stage: Stage)
    requires
        next < paths@.len(),
    ensures
        stage@ == next_file(
            changes@,
            git_diff::result_views(done@).push(result@),
            text::texts(paths@).skip(next as int).drop_first(),
        ),
        stage_wf(stage),
{
    let mut done = done;
    let ghost before = done@;
    done.push(result);
    assert(git_diff::result_views(done@) =~= git_diff::result_views(before).push(result@));
    assert(text::texts(paths@).skip(next + 1) =~= text::texts(paths@).skip(
        next as int,
    ).drop_first());
    assert(next < paths.len());
    go_on_with_file(changes, done, paths, next + 1)
}

/// The file that a stage looks at is one of its files.
spec fn stage_wf(stage: Stage) -> bool {
    match stage {
        Stage::Inspecting { paths, next, .. } => next < paths@.len(),
        Stage::Linking { paths, next, .. } => next < paths@.len(),
        Stage::Reading { paths, next, .. } => next < paths@.len(),
        _ => true,
    }
}

/// The result for a path that needs no further look, by what the path is.
fn inspect(path: &str, info: &Result<FileInfo, String>, max_bytes: u64) -> (result: Option<
    GitDiffResult,
>)
    ensures
        match result {
            Some(result) => inspected_result(
                path@,
                match *info {
                    Ok(info) => Ok::<FileInfo, Seq<char>>(info),
                    Err(error) => Err(error@),
                },
                max_bytes,
            ) == Some(result@),
            None => inspected_result(
                path@,
                match *info {
                    Ok(info) => Ok::<FileInfo, Seq<char>>(info),
                    Err(error) => Err(error@),
                },
                max_bytes,
            ) is None,
        },
{
    match info {
        Err(error) => Some(failure("failed to read untracked file ", path, error.as_str())),
        Ok(FileInfo::Symlink) => None,
        Ok(FileInfo::Other) => Some(
            GitDiffResult {
                text: untracked::skipped_untracked_diff(path, "100644", "not a regular file"),
                error: None,
            },
        ),
        Ok(FileInfo::Regular { len, permissions }) => {
            if *len > max_bytes {
                let mut reason = "larger than --max-untracked-bytes (".to_string();
                reason.push_str(number::decimal_string(max_bytes).as_str());
                reason.push_str(")");
                Some(
                    GitDiffResult {
                        text: untracked::skipped_untracked_diff(
                            path,
                            untracked::file_mode(*permissions),
                            reason.as_str(),
                        ),
                        error: None,
                    },
                )
            } else {
                None
            }
        },
    }
}

impl DiffRead {
    /// The reading is in a stage that can be reached.
    pub closed spec fn wf(self) -> bool {
        stage_wf(self.stage)
    }

    /// What the reading needs to know next; nothing where it is done.
    pub fn request(&self) -> (request: Option<Request>)
        requires
            self.wf(),
        ensures
            match request {
                Some(request) => self@.request() == Some(request@),
                None => self@.request() is None,
            },
    {
        let context = self.options.context;
        let pathspecs = self.options.pathspecs.as_slice();
        match &self.stage {
            Stage::Head => {
                let args = vec![
                    "rev-parse".to_string(),
                    "--verify".to_string(),
                    "HEAD".to_string(),
                ];
                assert(text::texts(args@) =~= git_diff::head_probe_args());
                Some(Request::Git(args))
            },
            Stage::SinceHead => Some(
                Request::Git(git_diff::diff_args(context, Some("HEAD"), pathspecs)),
            ),
            Stage::Staged => Some(
                Request::Git(git_diff::diff_args(context, Some("--cached"), pathspecs)),
            ),
            Stage::Unstaged { .. } => Some(
                Request::Git(git_diff::diff_args(context, None, pathspecs)),
            ),
            Stage::Listing { .. } => Some(Request::Git(git_diff::list_args(pathspecs))),
            Stage::Inspecting { paths, next, .. } => Some(Request::Inspect(paths[*next].clone())),
            Stage::Linking { paths, next, .. } => Some(Request::ReadLink(paths[*next].clone())),
            Stage::Reading { paths, next, .. } => Some(Request::ReadFile(paths[*next].clone())),
            Stage::Done(_) => None,
        }
    }

    /// Goes on with the reply to the request.
    pub fn supply(self, reply: Reply) -> (read: DiffRead)
        requires
            self.wf(),
            self@.request() matches Some(request) && answers(reply@, request),
        ensures
            read@ == self@.after(reply@),
            read.wf(),
    {
        let options = self.options;
        let max_bytes = options.max_untracked_bytes;
        let stage = match (self.stage, reply) {
            (Stage::Head, Reply::Git(run)) => {
                if git_diff::has_succeeded(&run) {
                    Stage::SinceHead
                } else {
                    Stage::Staged
                }
            },
            (Stage::SinceHead, Reply::Git(run)) => go_on(&options, git_diff::run_git_diff(run)),
            (Stage::Staged, Reply::Git(run)) => Stage::Unstaged {
                staged: git_diff::run_git_diff(run),
            },
            (Stage::Unstaged { staged }, Reply::Git(run)) => go_on(
                &options,
                combine_two(staged, git_diff::run_git_diff(run)),
            ),
            (Stage::Listing { changes }, Reply::Git(run)) => match git_diff::list_untracked_files(
                run,
            ) {
                Ok(paths) => {
                    assert(text::texts(paths@).skip(0) =~= text::texts(paths@));
                    let done: Vec<GitDiffResult> = Vec::new();
                    assert(git_diff::result_views(done@) =~= seq![]);
                    go_on_with_file(changes, done, paths, 0)
                },
                Err(error) => Stage::Done(combine_two(changes, git_diff::diff_error(error))),
            },
            (Stage::Inspecting { changes, done, paths, next }, Reply::Inspected(info)) => {
                match inspect(paths[next].as_str(), &info, max_bytes) {
                    Some(result) => finish_file(changes, done, paths, next, result),
                    None => match info {
                        Ok(FileInfo::Regular { permissions, .. }) => Stage::Reading {
                            changes,
                            done,
                            paths,
                            next,
                            permissions,
                        },
                        _ => Stage::Linking { changes, done, paths, next },
                    },
                }
            },
            (Stage::Linking { changes, done, paths, next }, Reply::Link(target)) => {
                let result = match target {
                    Ok(target) => GitDiffResult {
                        text: untracked::text_untracked_diff(
                            paths[next].as_str(),
                            "120000",
                            target.as_str(),
                        ),
                        error: None,
                    },
                    Err(error) => failure(
                        "failed to read untracked symlink ",
                        paths[next].as_str(),
                        error.as_str(),
                    ),
                };
                finish_file(changes, done, paths, next, result)
            },
            (Stage::Reading { changes, done, paths, next, permissions }, Reply::Content(content)) => {
                let result = match content {
                    Ok(bytes) => GitDiffResult {
                        text: untracked::content_untracked_diff(
                            paths[next].as_str(),
                            untracked::file_mode(permissions),
                            bytes.as_slice(),
                        ),
                        error: None,
                    },
                    Err(error) => failure(
                        "failed to read untracked file ",
                        paths[next].as_str(),
                        error.as_str(),
                    ),
                };
                finish_file(changes, done, paths, next, result)
            },
            (stage, _) => stage,
        };
        DiffRead { options, stage }
    }

    /// The result, where the reading is done.
    pub fn result(self) -> (result: Option<GitDiffResult>)
        ensures
            match result {
                Some(result) => self@.stage == StageView::Done(result@),
                None => !(self@.stage is Done),
            },
    {
        match self.stage {
            Stage::Done(result) => Some(result),
            _ => None,
        }
    }
}

/// What a reading of the tracked changes gives where `answer` is the answer to each request.
pub open spec fn read_tracked(
    options: DiffOptionsView,
    answer: spec_fn(RequestView) -> ReplyView,
) -> GitDiffView {
    let diff = |extra: Seq<Seq<char>>|
        git_diff::comparison_result(
            git_answer(answer, git_diff::diff_command(options.context, extra, options.pathspecs)),
        );
    if git_diff::succeeded(git_answer(answer, git_diff::head_probe_args())) {
        diff(seq!["HEAD"@])
    } else {
        git_diff::combined(seq![diff(seq!["--cached"@]), diff(seq![])])
    }
}

/// The outcome of Git with the given arguments.
pub open spec fn git_answer(answer: spec_fn(RequestView) -> ReplyView, args: Seq<Seq<char>>) -> Result<
    GitOutputView,
    Seq<char>,
> {
    match answer(RequestView::Git(args)) {
        ReplyView::Git(run) => run,
        _ => arbitrary(),
    }
}

/// The diff of one untracked file.
pub open spec fn read_file(
    path: Seq<char>,
    max_bytes: u64,
    answer: spec_fn(RequestView) -> ReplyView,
) -> GitDiffView {
    match answer(RequestView::Inspect(path)) {
        ReplyView::Inspected(info) => match (inspected_result(path, info, max_bytes), info) {
            (Some(result), _) => result,
            (None, Ok(FileInfo::Regular { permissions, .. })) => read_content(
                path,
                permissions,
                answer,
            ),
            (None, _) => read_link(path, answer),
        },
        _ => arbitrary(),
    }
}

/// The diff of an untracked link.
pub open spec fn read_link(path: Seq<char>, answer: spec_fn(RequestView) -> ReplyView) -> GitDiffView {
    match answer(RequestView::ReadLink(path)) {
        ReplyView::Link(target) => link_result(path, target),
        _ => arbitrary(),
    }
}

/// The diff of an untracked regular file that is not skipped.
pub open spec fn read_content(
    path: Seq<char>,
    permissions: Option<u32>,
    answer: spec_fn(RequestView) -> ReplyView,
) -> GitDiffView {
    match answer(RequestView::ReadFile(path)) {
        ReplyView::Content(content) => content_result(path, permissions, content),
        _ => arbitrary(),
    }
}

/// The diffs of some untracked files.
pub open spec fn read_files(
    paths: Seq<Seq<char>>,
    max_bytes: u64,
    answer: spec_fn(RequestView) -> ReplyView,
) -> Seq<GitDiffView> {
    paths.map_values(|path: Seq<char>| read_file(path, max_bytes, answer))
}

/// What a reading of the untracked files gives.
pub open spec fn read_untracked(
    options: DiffOptionsView,
    answer: spec_fn(RequestView) -> ReplyView,
) -> GitDiffView {
    match git_diff::listed_paths(git_answer(answer, git_diff::list_command(options.pathspecs))) {
        Ok(paths) => git_diff::combined(read_files(paths, options.max_untracked_bytes, answer)),
        Err(error) => git_diff::error_view(error),
    }
}

/// The uncommitted changes: those of the tracked files, and where they are asked for the untracked
/// files.
pub open spec fn uncommitted_diff(
    options: DiffOptionsView,
    answer: spec_fn(RequestView) -> ReplyView,
) -> GitDiffView {
    with_untracked(options, read_tracked(options, answer), answer)
}

/// The changes of the tracked files, with the untracked files where they are asked for.
pub open spec fn with_untracked(
    options: DiffOptionsView,
    changes: GitDiffView,
    answer: spec_fn(RequestView) -> ReplyView,
) -> GitDiffView {
    if options.include_untracked {
        git_diff::combined(seq![changes, read_untracked(options, answer)])
    } else {
        changes
    }
}

/// Each request gets an answer of its kind.
pub open spec fn answers_all(answer: spec_fn(RequestView) -> ReplyView) -> bool {
    forall|request: RequestView| answers(#[trigger] answer(request), request)
}

impl DiffReadView {
    /// The reading after `count` replies.
    pub open spec fn run(self, answer: spec_fn(RequestView) -> ReplyView, count: nat) -> DiffReadView
        decreases count,
    {
        match self.request() {
            Some(request) => if count == 0 {
                self
            } else {
                self.after(answer(request)).run(answer, (count - 1) as nat)
            },
            None => self,
        }
    }

    /// What the reading comes to.
    spec fn outcome(self, answer: spec_fn(RequestView) -> ReplyView) -> GitDiffView {
        let options = self.options;
        let max = options.max_untracked_bytes;
        match self.stage {
            StageView::Head => uncommitted_diff(options, answer),
            StageView::SinceHead => with_untracked(
                options,
                git_diff::comparison_result(
                    git_answer(
                        answer,
                        git_diff::diff_command(options.context, seq!["HEAD"@], options.pathspecs),
                    ),
                ),
                answer,
            ),
            StageView::Staged => with_untracked(
                options,
                git_diff::combined(
                    seq![
                        git_diff::comparison_result(
                            git_answer(
                                answer,
                                git_diff::diff_command(
                                    options.context,
                                    seq!["--cached"@],
                                    options.pathspecs,
                                ),
                            ),
                        ),
                        git_diff::comparison_result(
                            git_answer(
                                answer,
                                git_diff::diff_command(options.context, seq![], options.pathspecs),
                            ),
                        ),
                    ],
                ),
                answer,
            ),
            StageView::Unstaged { staged } => with_untracked(
                options,
                git_diff::combined(
                    seq![
                        staged,
                        git_diff::comparison_result(
                            git_answer(
                                answer,
                                git_diff::diff_command(options.context, seq![], options.pathspecs),
                            ),
                        ),
                    ],
                ),
                answer,
            ),
            StageView::Listing { changes } => git_diff::combined(
                seq![changes, read_untracked(options, answer)],
            ),
            StageView::Inspecting { changes, done, left } => git_diff::combined(
                seq![changes, git_diff::combined(done + read_files(left, max, answer))],
            ),
            StageView::Linking { changes, done, left } => git_diff::combined(
                seq![
                    changes,
                    git_diff::combined(
                        done + (seq![read_link(left[0], answer)] + read_files(
                            left.drop_first(),
                            max,
                            answer,
                        )),
                    ),
                ],
            ),
            StageView::Reading { changes, done, left, permissions } => git_diff::combined(
                seq![
                    changes,
                    git_diff::combined(
                        done + (seq![read_content(left[0], permissions, answer)] + read_files(
                            left.drop_first(),
                            max,
                            answer,
                        )),
                    ),
                ],
            ),
            StageView::Done(result) => result,
        }
    }

    /// How many replies a reading needs at most, where `count` files are untracked.
    spec fn replies_left(self, count: nat) -> nat {
        match self.stage {
            StageView::Head => 4 + 2 * count,
            StageView::Staged => 3 + 2 * count,
            StageView::SinceHead => 2 + 2 * count,
            StageView::Unstaged { .. } => 2 + 2 * count,
            StageView::Listing { .. } => 1 + 2 * count,
            StageView::Inspecting { left, .. } => 2 * left.len(),
            StageView::Linking { left, .. } => (2 * left.len() - 1) as nat,
            StageView::Reading { left, .. } => (2 * left.len() - 1) as nat,
            StageView::Done(_) => 0,
        }
    }
}

/// How many untracked files there are.
pub open spec fn untracked_count(
    options: DiffOptionsView,
    answer: spec_fn(RequestView) -> ReplyView,
) -> nat {
    match git_diff::listed_paths(git_answer(answer, git_diff::list_command(options.pathspecs))) {
        Ok(paths) => paths.len(),
        Err(_) => 0,
    }
}

/// After the files that are done, the first of the rest comes next.
proof fn lemma_next_file(
    options: DiffOptionsView,
    changes: GitDiffView,
    done: Seq<GitDiffView>,
    first: GitDiffView,
    rest: Seq<Seq<char>>,
    answer: spec_fn(RequestView) -> ReplyView,
)
    ensures
        (DiffReadView { options, stage: next_file(changes, done.push(first), rest) }).outcome(answer)
            == git_diff::combined(
            seq![
                changes,
                git_diff::combined(
                    done + (seq![first] + read_files(rest, options.max_untracked_bytes, answer)),
                ),
            ],
        ),
{
    let files = read_files(rest, options.max_untracked_bytes, answer);
    assert(done.push(first) + files =~= done + (seq![first] + files));
    if rest.len() == 0 {
        assert(done.push(first) + files =~= done.push(first));
    }
}

/// The reply to the request of `read` leads to a reading that comes to the same, and is nearer to
/// its end.
spec fn good_step(read: DiffReadView, answer: spec_fn(RequestView) -> ReplyView) -> bool {
    let next = read.after(answer(read.request()->0));
    let count = untracked_count(read.options, answer);
    &&& next.wf()
    &&& next.options == read.options
    &&& next.outcome(answer) == read.outcome(answer)
    &&& next.replies_left(count) < read.replies_left(count)
}

/// The replies about the tracked files.
proof fn lemma_step_changes(read: DiffReadView, answer: spec_fn(RequestView) -> ReplyView)
    requires
        answers_all(answer),
        read.stage is Head || read.stage is SinceHead || read.stage is Staged
            || read.stage is Unstaged,
    ensures
        good_step(read, answer),
{
    let request = read.request()->0;
    assert(answers(answer(request), request));
}

/// The reply that lists the untracked files.
#[verifier::spinoff_prover]
proof fn lemma_step_listing(read: DiffReadView, answer: spec_fn(RequestView) -> ReplyView)
    requires
        answers_all(answer),
        read.stage is Listing,
    ensures
        good_step(read, answer),
{
    let request = read.request()->0;
    assert(answers(answer(request), request));
    let next = read.after(answer(request));
    let run = git_answer(answer, git_diff::list_command(read.options.pathspecs));
    if let StageView::Listing { changes } = read.stage {
        match git_diff::listed_paths(run) {
            Ok(paths) => {
                let none: Seq<GitDiffView> = seq![];
                let files = read_files(paths, read.options.max_untracked_bytes, answer);
                assert(next.stage == next_file(changes, none, paths));
                assert(none + files =~= files);
                if paths.len() == 0 {
                    assert(files =~= none);
                }
            },
            Err(error) => {
                assert(next.stage == StageView::Done(
                    git_diff::combined(seq![changes, git_diff::error_view(error)]),
                ));
            },
        }
    }
}

/// The reply that says what an untracked file is.
proof fn lemma_step_inspecting(read: DiffReadView, answer: spec_fn(RequestView) -> ReplyView)
    requires
        read.wf(),
        answers_all(answer),
        read.stage is Inspecting,
    ensures
        good_step(read, answer),
{
    let request = read.request()->0;
    let reply = answer(request);
    assert(answers(reply, request));
    let max = read.options.max_untracked_bytes;
    if let StageView::Inspecting { changes, done, left } = read.stage {
        let rest = left.drop_first();
        assert(read_files(left, max, answer) =~= seq![read_file(left[0], max, answer)]
            + read_files(rest, max, answer));
        if let ReplyView::Inspected(info) = reply {
            if let Some(result) = inspected_result(left[0], info, max) {
                lemma_next_file(read.options, changes, done, result, rest, answer);
            }
        }
    }
}

/// The reply that holds the target or the content of an untracked file.
proof fn lemma_step_reading(read: DiffReadView, answer: spec_fn(RequestView) -> ReplyView)
    requires
        read.wf(),
        answers_all(answer),
        read.stage is Linking || read.stage is Reading,
    ensures
        good_step(read, answer),
{
    let request = read.request()->0;
    assert(answers(answer(request), request));
    match read.stage {
        StageView::Linking { changes, done, left } => {
            let result = read_link(left[0], answer);
            lemma_next_file(read.options, changes, done, result, left.drop_first(), answer);
        },
        StageView::Reading { changes, done, left, permissions } => {
            let result = read_content(left[0], permissions, answer);
            lemma_next_file(read.options, changes, done, result, left.drop_first(), answer);
        },
        _ => {},
    }
}

/// A reading that gets enough replies comes to what it comes to.
proof fn lemma_run(read: DiffReadView, answer: spec_fn(RequestView) -> ReplyView, count: nat)
    requires
        read.wf(),
        answers_all(answer),
        read.replies_left(untracked_count(read.options, answer)) <= count,
    ensures
        read.run(answer, count).stage == StageView::Done(read.outcome(answer)),
    decreases count,
{
    if let Some(request) = read.request() {
        match read.stage {
            StageView::Listing { .. } => lemma_step_listing(read, answer),
            StageView::Inspecting { .. } => lemma_step_inspecting(read, answer),
            StageView::Linking { .. } => lemma_step_reading(read, answer),
            StageView::Reading { .. } => lemma_step_reading(read, answer),
            _ => lemma_step_changes(read, answer),
        }
        if count > 0 {
            lemma_run(read.after(answer(request)), answer, (count - 1) as nat);
        }
    }
}

/// A reading ends, after at most four replies and two for each untracked file, and comes to the
/// uncommitted changes: what Git prints of the tracked files, compared with the last commit or,
/// where there is none, staged and unstaged apart; and where they are asked for, each untracked
/// file in the order of Git's list.
pub proof fn law_reading_gives_uncommitted_diff(
    options: DiffOptionsView,
    answer: spec_fn(RequestView) -> ReplyView,
    count: nat,
)
    requires
        answers_all(answer),
        4 + 2 * untracked_count(options, answer) <= count,
    ensures
        read_start(options).run(answer, count).stage == StageView::Done(
            uncommitted_diff(options, answer),
        ),
{
    lemma_run(read_start(options), answer, count);
}

} // verus!
