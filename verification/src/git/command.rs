//! The commands that tell of a repository, and what becomes of their output.

use vstd::prelude::*;

use crate::bytes;
use crate::bytes::{exact, lossy};
use crate::scan;
use crate::scan::{bytes_at, trim};
use crate::text;
use crate::text::{concat2, copy_texts, owned};

verus! {

/// How long a command may run.
pub const COMMAND_DEADLINE_MS: u64 = 5_000;

/// What to do about a command that was started.
#[derive(Debug, Clone, Copy, PartialEq, Eq, Structural)]
pub enum WaitStep {
    /// It has ended: read what it printed.
    Finish,
    /// It runs for too long: end it.
    GiveUp,
    /// Look again after a while.
    Sleep,
}

/// What to do about a command that has been running for some time.
pub fn wait_step(ended: bool, elapsed_ms: u64) -> (step: WaitStep)
    ensures
        step is Finish <==> ended,
        step is GiveUp <==> !ended && elapsed_ms >= COMMAND_DEADLINE_MS,
{
    if ended {
        WaitStep::Finish
    } else if elapsed_ms >= COMMAND_DEADLINE_MS {
        WaitStep::GiveUp
    } else {
        WaitStep::Sleep
    }
}

/// What is said of a command that ran for too long.
pub fn timed_out(program: &str) -> (message: String)
    ensures
        message@ == program@ + " timed out"@,
{
    concat2(program, " timed out")
}

/// What a command says, without the space around it.
pub open spec fn spoken(output: Seq<u8>) -> Seq<char> {
    scan::trim_of(bytes::lossy_text(output))
}

/// Whether the output of a command counts. Where it compares, a difference makes
/// it end with one.
pub open spec fn counts(success: bool, code: Option<i32>, allow_diff_exit: bool) -> bool {
    success || (allow_diff_exit && code == Some(1i32))
}

/// What a command that has ended gives: the exact bytes it printed, or what it
/// complained of.
pub fn command_output(
    success: bool,
    code: Option<i32>,
    allow_diff_exit: bool,
    stdout: Vec<u8>,
    stderr: &[u8],
) -> (output: Result<Vec<u8>, String>)
    ensures
        match output {
            Ok(bytes) => counts(success, code, allow_diff_exit) && bytes == stdout,
            Err(message) => !counts(success, code, allow_diff_exit) && message@ == spoken(stderr@),
        },
{
    let differs = match code {
        Some(value) => value == 1,
        None => false,
    };
    if success || (allow_diff_exit && differs) {
        Ok(stdout)
    } else {
        Err(trim(lossy(stderr).as_str()))
    }
}

/// A text, where there is any.
pub open spec fn some_text(text: Seq<char>) -> Option<Seq<char>> {
    if text.len() == 0 {
        None
    } else {
        Some(text)
    }
}

/// A text without the space around it, where any is left.
pub fn text_of_reply(text: &str) -> (reply: Option<String>)
    ensures
        text::opt(reply) == some_text(scan::trim_of(text@)),
{
    let trimmed = trim(text);
    if trimmed.as_str().is_empty() {
        None
    } else {
        Some(trimmed)
    }
}

/// What a command answers.
pub open spec fn answer(success: bool, stdout: Seq<u8>) -> Option<Seq<char>> {
    if success {
        some_text(spoken(stdout))
    } else {
        None
    }
}

/// What a command answers: nothing where it failed or printed nothing.
pub fn run_git(success: bool, stdout: &[u8]) -> (reply: Option<String>)
    ensures
        text::opt(reply) == answer(success, stdout@),
{
    if success {
        text_of_reply(lossy(stdout).as_str())
    } else {
        None
    }
}

/// What a command answers, with the space around it.
pub open spec fn whole_answer(success: bool, stdout: Seq<u8>) -> Option<Seq<char>> {
    if success && spoken(stdout).len() > 0 {
        Some(bytes::lossy_text(stdout))
    } else {
        None
    }
}

/// What a command answers, with the space around it, which counts where columns do:
/// the first line of a short status starts with a blank where nothing is staged.
/// There is nothing where the command failed or printed nothing but space.
pub fn run_git_whole(success: bool, stdout: &[u8]) -> (reply: Option<String>)
    ensures
        text::opt(reply) == whole_answer(success, stdout@),
{
    if !success {
        return None;
    }
    let reply = lossy(stdout);
    if trim(reply.as_str()).as_str().is_empty() {
        None
    } else {
        Some(reply)
    }
}

/// What a command answers, or what it complained of; where it said nothing, how it
/// ended.
pub fn run_git_capture(success: bool, status: &str, stdout: &[u8], stderr: &[u8]) -> (reply: Result<
    String,
    String,
>)
    ensures
        match reply {
            Ok(text) => success && text@ == spoken(stdout@),
            Err(message) => !success && message@ == match some_text(spoken(stderr@)) {
                Some(complaint) => complaint,
                None => "git exited with status "@ + status@,
            },
        },
{
    if success {
        Ok(trim(lossy(stdout).as_str()))
    } else {
        match text_of_reply(lossy(stderr).as_str()) {
            Some(complaint) => Err(complaint),
            None => Err(concat2("git exited with status ", status)),
        }
    }
}

/// The number of a pull request, from what the command that looks it up printed.
/// What is not UTF-8 is none.
pub fn fetch_pr_number(success: bool, stdout: Vec<u8>) -> (pr: Option<String>)
    ensures
        text::opt(pr) == if success && vstd::utf8::valid_utf8(stdout@) {
            some_text(scan::trim_of(vstd::utf8::decode_utf8(stdout@)))
        } else {
            None
        },
{
    if !success {
        return None;
    }
    match exact(stdout) {
        Some(text) => text_of_reply(text.as_str()),
        None => None,
    }
}

// What git is asked.

/// The arguments of a git command in a directory.
pub open spec fn in_directory(path: Seq<char>, args: Seq<Seq<char>>) -> Seq<Seq<char>> {
    seq!["-C"@, path] + args
}

/// The arguments of a git command in a directory.
pub fn git_args(path: &str, args: &Vec<String>) -> (all: Vec<String>)
    ensures
        text::texts(all@) == in_directory(path@, text::texts(args@)),
{
    let mut all: Vec<String> = Vec::new();
    all.push(owned("-C"));
    all.push(owned(path));
    let mut rest = copy_texts(args);
    let ghost listed = text::texts(rest@);
    let ghost head = all@;
    all.append(&mut rest);
    proof {
        assert(text::texts(all@) =~= in_directory(path@, listed));
    }
    all
}

/// What git can be asked of a checkout.
#[derive(Debug, Clone, Copy, PartialEq, Eq, Structural)]
pub enum GitQuery {
    Toplevel,
    Branch,
    Status,
    ShortStat,
    StagedShortStat,
    AheadBehind,
    Numstat,
    StagedNumstat,
    Remote,
    Untracked,
    Patch,
}

/// The arguments of a question.
pub open spec fn query_args(query: GitQuery) -> Seq<Seq<char>> {
    match query {
        GitQuery::Toplevel => seq!["rev-parse"@, "--show-toplevel"@],
        GitQuery::Branch => seq!["rev-parse"@, "--abbrev-ref"@, "HEAD"@],
        GitQuery::Status => seq!["status"@, "--short"@],
        GitQuery::ShortStat => seq!["diff"@, "--shortstat"@],
        GitQuery::StagedShortStat => seq!["diff"@, "--cached"@, "--shortstat"@],
        GitQuery::AheadBehind => {
            seq!["rev-list"@, "--left-right"@, "--count"@, "HEAD...@{upstream}"@]
        },
        GitQuery::Numstat => seq!["diff"@, "--numstat"@],
        GitQuery::StagedNumstat => seq!["diff"@, "--cached"@, "--numstat"@],
        GitQuery::Remote => seq!["remote"@, "get-url"@, "origin"@],
        GitQuery::Untracked => {
            seq!["status"@, "--porcelain=v1"@, "-z"@, "--untracked-files=all"@]
        },
        GitQuery::Patch => seq!["diff"@, "HEAD"@, "--no-color"@, "--binary"@, "--"@],
    }
}

fn list2(first: &str, second: &str) -> (list: Vec<String>)
    ensures
        text::texts(list@) == seq![first@, second@],
{
    let mut list: Vec<String> = Vec::new();
    list.push(owned(first));
    list.push(owned(second));
    proof {
        assert(text::texts(list@) =~= seq![first@, second@]);
    }
    list
}

fn list3(first: &str, second: &str, third: &str) -> (list: Vec<String>)
    ensures
        text::texts(list@) == seq![first@, second@, third@],
{
    let mut list = list2(first, second);
    list.push(owned(third));
    proof {
        assert(text::texts(list@) =~= seq![first@, second@].push(third@));
        assert(text::texts(list@) =~= seq![first@, second@, third@]);
    }
    list
}

fn list4(first: &str, second: &str, third: &str, fourth: &str) -> (list: Vec<String>)
    ensures
        text::texts(list@) == seq![first@, second@, third@, fourth@],
{
    let mut list = list3(first, second, third);
    list.push(owned(fourth));
    proof {
        assert(text::texts(list@) =~= seq![first@, second@, third@].push(fourth@));
        assert(text::texts(list@) =~= seq![first@, second@, third@, fourth@]);
    }
    list
}

fn list5(first: &str, second: &str, third: &str, fourth: &str, fifth: &str) -> (list: Vec<String>)
    ensures
        text::texts(list@) == seq![first@, second@, third@, fourth@, fifth@],
{
    let mut list = list4(first, second, third, fourth);
    list.push(owned(fifth));
    proof {
        assert(text::texts(list@) =~= seq![first@, second@, third@, fourth@].push(fifth@));
        assert(text::texts(list@) =~= seq![first@, second@, third@, fourth@, fifth@]);
    }
    list
}

impl GitQuery {
    /// The arguments of a question.
    pub fn args(self) -> (args: Vec<String>)
        ensures
            text::texts(args@) == query_args(self),
    {
        match self {
            GitQuery::Toplevel => list2("rev-parse", "--show-toplevel"),
            GitQuery::Branch => list3("rev-parse", "--abbrev-ref", "HEAD"),
            GitQuery::Status => list2("status", "--short"),
            GitQuery::ShortStat => list2("diff", "--shortstat"),
            GitQuery::StagedShortStat => list3("diff", "--cached", "--shortstat"),
            GitQuery::AheadBehind => list4(
                "rev-list",
                "--left-right",
                "--count",
                "HEAD...@{upstream}",
            ),
            GitQuery::Numstat => list2("diff", "--numstat"),
            GitQuery::StagedNumstat => list3("diff", "--cached", "--numstat"),
            GitQuery::Remote => list3("remote", "get-url", "origin"),
            GitQuery::Untracked => list4(
                "status",
                "--porcelain=v1",
                "-z",
                "--untracked-files=all",
            ),
            GitQuery::Patch => list5("diff", "HEAD", "--no-color", "--binary", "--"),
        }
    }
}

/// The arguments that show a file that is not tracked as one that was added.
pub open spec fn untracked_args(path: Seq<char>) -> Seq<Seq<char>> {
    seq!["diff"@, "--no-index"@, "--no-color"@, "--binary"@, "/dev/null"@, path]
}

/// The arguments that show a file that is not tracked as one that was added.
pub fn untracked_patch_args(path: &str) -> (args: Vec<String>)
    ensures
        text::texts(args@) == untracked_args(path@),
{
    let mut args = list5("diff", "--no-index", "--no-color", "--binary", "/dev/null");
    args.push(owned(path));
    proof {
        assert(text::texts(args@) =~= seq![
            "diff"@,
            "--no-index"@,
            "--no-color"@,
            "--binary"@,
            "/dev/null"@,
        ].push(path@));
        assert(text::texts(args@) =~= seq![
            "diff"@,
            "--no-index"@,
            "--no-color"@,
            "--binary"@,
            "/dev/null"@,
            path@,
        ]);
    }
    args
}

/// The arguments that compare two directories of snapshots.
pub fn snapshot_patch_args(before: &str, after: &str) -> (args: Vec<String>)
    ensures
        text::texts(args@) == seq![
            "diff"@,
            "--no-index"@,
            "--no-color"@,
            "--binary"@,
            "--"@,
            before@,
            after@,
        ],
{
    let mut args = list5("diff", "--no-index", "--no-color", "--binary", "--");
    let ghost head = text::texts(args@);
    args.push(owned(before));
    args.push(owned(after));
    proof {
        assert(text::texts(args@) =~= head + seq![before@, after@]);
        assert(text::texts(args@) =~= seq![
            "diff"@,
            "--no-index"@,
            "--no-color"@,
            "--binary"@,
            "--"@,
            before@,
            after@,
        ]);
    }
    args
}

// What git is told.

/// The command that names the top-level directory of the repository containing
/// `path`. [`run_git`] reads its answer.
pub fn repo_root(path: &str) -> (args: Vec<String>)
    ensures
        text::texts(args@) == in_directory(path@, seq!["rev-parse"@, "--show-toplevel"@]),
{
    git_args(path, &GitQuery::Toplevel.args())
}

/// The command that succeeds when `<repo>/refs/heads/<branch>` exists, i.e. the
/// branch name is already taken.
pub fn branch_exists(repo: &str, branch: &str) -> (args: Vec<String>)
    ensures
        text::texts(args@) == in_directory(
            repo@,
            seq!["show-ref"@, "--verify"@, "--quiet"@, "refs/heads/"@ + branch@],
        ),
{
    let reference = concat2("refs/heads/", branch);
    git_args(repo, &list4("show-ref", "--verify", "--quiet", reference.as_str()))
}

/// `git worktree add <worktree_path> -b <branch>` from inside `repo`.
pub fn worktree_add(repo: &str, worktree_path: &str, branch: &str) -> (args: Vec<String>)
    ensures
        text::texts(args@) == in_directory(
            repo@,
            seq!["worktree"@, "add"@, worktree_path@, "-b"@, branch@],
        ),
{
    git_args(repo, &list5("worktree", "add", worktree_path, "-b", branch))
}

/// `git worktree remove --force <worktree_path>`. `--force` is used
/// because the sidebar's remove flow only runs when the user explicitly
/// picks "close window + remove worktree" — agent sessions routinely
/// leave untracked state behind and git would otherwise strand the
/// worktree. Users who want to keep the checkout have `w` (window only).
pub fn worktree_remove(repo: &str, worktree_path: &str) -> (args: Vec<String>)
    ensures
        text::texts(args@) == in_directory(
            repo@,
            seq!["worktree"@, "remove"@, "--force"@, worktree_path@],
        ),
{
    git_args(repo, &list4("worktree", "remove", "--force", worktree_path))
}

/// `git branch -D <branch>`. Used by the spawn rollback path to drop
/// the branch ref that `git worktree add -b` just created — removing
/// only the worktree leaves the branch behind, which later spawns
/// would then collide with via `branch_exists`.
pub fn branch_delete(repo: &str, branch: &str) -> (args: Vec<String>)
    ensures
        text::texts(args@) == in_directory(repo@, seq!["branch"@, "-D"@, branch@]),
{
    git_args(repo, &list3("branch", "-D", branch))
}

// Files that git does not track.

/// The paths among the fields of a status that are not tracked.
pub open spec fn untracked_fields(fields: Seq<Seq<u8>>) -> Seq<Seq<char>>
    decreases fields.len(),
{
    if fields.len() == 0 {
        Seq::<Seq<char>>::empty()
    } else {
        let field = fields.last();
        if scan::starts(field, vstd::utf8::encode_utf8("?? "@)) {
            untracked_fields(fields.drop_last()).push(
                bytes::lossy_text(field.subrange(3, field.len() as int)),
            )
        } else {
            untracked_fields(fields.drop_last())
        }
    }
}

/// How many fields of a status name a file that is not tracked.
pub open spec fn untracked_total(fields: Seq<Seq<u8>>) -> nat
    decreases fields.len(),
{
    if fields.len() == 0 {
        0
    } else {
        untracked_total(fields.drop_last()) + if scan::starts(
            fields.last(),
            vstd::utf8::encode_utf8("?? "@),
        ) {
            1nat
        } else {
            0nat
        }
    }
}

/// Each such field gives one path.
pub proof fn one_path_for_each_field(fields: Seq<Seq<u8>>)
    ensures
        untracked_fields(fields).len() == untracked_total(fields),
    decreases fields.len(),
{
    if fields.len() > 0 {
        one_path_for_each_field(fields.drop_last());
    }
}

/// The paths that a status, its fields separated by zeros, says are not tracked.
pub fn git_untracked_paths(stdout: &[u8]) -> (paths: Vec<String>)
    ensures
        text::texts(paths@) == untracked_fields(bytes::pieces(stdout@, 0)),
{
    let fields = bytes::split(stdout, 0);
    let ghost all = bytes::lists(fields@);
    let mut paths: Vec<String> = Vec::new();
    let mut i: usize = 0;
    proof {
        assert(all.take(0) =~= Seq::empty());
        assert(text::texts(paths@) =~= untracked_fields(all.take(0)));
        reveal_strlit("?? ");
        vstd::utf8::is_ascii_chars_encode_utf8("?? "@);
    }
    while i < fields.len()
        invariant
            i <= fields@.len(),
            all == bytes::lists(fields@),
            vstd::utf8::encode_utf8("?? "@).len() == 3,
            text::texts(paths@) == untracked_fields(all.take(i as int)),
        decreases fields@.len() - i,
    {
        let ghost listed = text::texts(paths@);
        proof {
            assert(all[i as int] == fields@[i as int]@);
            assert(all.take(i + 1).drop_last() =~= all.take(i as int));
        }
        let field = fields[i].as_slice();
        if bytes_at(field, "?? ".as_bytes(), 0) {
            let rest = bytes::copy_range(field, 3, field.len());
            let path = lossy(rest.as_slice());
            paths.push(path);
            proof {
                assert(text::texts(paths@) =~= listed.push(path@));
            }
        }
        i = i + 1;
    }
    proof {
        assert(all.take(i as int) =~= all);
    }
    paths
}

// Laws.

/// The files that are not tracked are those of the fields that lead with two question
/// marks and a blank, in their order; what follows these is the path.
pub proof fn question_marks_tell_untracked_files(
    before: Seq<Seq<u8>>,
    path: Seq<u8>,
    other: Seq<u8>,
    after: Seq<Seq<u8>>,
)
    requires
        other.len() < 3 || other[0] != 0x3f || other[1] != 0x3f || other[2] != 0x20,
    ensures
        untracked_fields(before + seq![seq![0x3fu8, 0x3fu8, 0x20u8] + path] + after)
            == untracked_fields(before).push(bytes::lossy_text(path)) + untracked_fields(after),
        untracked_fields(before + seq![other] + after) == untracked_fields(before)
            + untracked_fields(after),
        untracked_fields(Seq::<Seq<u8>>::empty()).len() == 0,
    decreases after.len(),
{
    reveal_strlit("?? ");
    vstd::utf8::is_ascii_chars_encode_utf8("?? "@);
    let mark = vstd::utf8::encode_utf8("?? "@);
    assert(mark =~= seq![0x3fu8, 0x3fu8, 0x20u8]);
    let field = seq![0x3fu8, 0x3fu8, 0x20u8] + path;
    let with = before + seq![field] + after;
    let without = before + seq![other] + after;
    if after.len() == 0 {
        assert(with.drop_last() =~= before);
        assert(without.drop_last() =~= before);
        assert(field.subrange(0, 3) =~= mark);
        assert(field.subrange(3, field.len() as int) =~= path);
        if scan::starts(other, mark) {
            let start = other.subrange(0, 3);
            assert(start[0] == other[0] && start[1] == other[1] && start[2] == other[2]);
        }
        assert(untracked_fields(with) =~= untracked_fields(before).push(bytes::lossy_text(path))
            + untracked_fields(after));
        assert(untracked_fields(without) =~= untracked_fields(before) + untracked_fields(after));
    } else {
        let rest = after.drop_last();
        question_marks_tell_untracked_files(before, path, other, rest);
        assert(with.drop_last() =~= before + seq![field] + rest);
        assert(without.drop_last() =~= before + seq![other] + rest);
        assert(with.last() == after.last());
        assert(without.last() == after.last());
        assert(untracked_fields(with) =~= untracked_fields(before).push(bytes::lossy_text(path))
            + untracked_fields(after));
        assert(untracked_fields(without) =~= untracked_fields(before) + untracked_fields(after));
    }
}

/// A command that compares is heard where it ends with one, and no other that fails is.
pub proof fn failures_are_not_heard(code: Option<i32>)
    ensures
        !counts(false, code, false),
        counts(false, code, true) <==> code == Some(1i32),
        counts(true, code, false) && counts(true, code, true),
{
}

} // verus!
