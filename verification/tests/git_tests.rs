use std::cell::Cell;

use tmux_agent_sidebar::bytes;
use tmux_agent_sidebar::git::arc::{
    after_paths, arc_diff_args, arc_patch_bytes, arc_untracked_patch, arc_untracked_paths,
    before_paths, branch_of, collect_arc_untracked, export_args, lies_inside,
    parse_arc_branch_json, parse_arc_branch_text, safe_arc_relative_path,
    safe_arc_relative_path_bytes, untracked_paths, FileKind,
};
use tmux_agent_sidebar::git::command::{
    command_output, git_args, git_untracked_paths, run_git, run_git_whole, snapshot_patch_args,
    timed_out, untracked_patch_args, wait_step, GitQuery, WaitStep, COMMAND_DEADLINE_MS,
};
use tmux_agent_sidebar::git::patch::{
    git_quote_path, merge_patches, new_file_patch, normalize_snapshot_prefixes,
    overlapping_snapshots, parse_git_path_token, patch_sections, patch_stat, SnapshotPath,
};
use tmux_agent_sidebar::git::status::{
    is_status_readable, normalize_git_path, normalize_git_url, parse_diff_stat, parse_numstat,
    parse_status_short,
};
use tmux_agent_sidebar::git::vcs::{is_countable, ArcProbe, GitProbe, PatchStep};
use tmux_agent_sidebar::git::{
    branch_delete, branch_exists, fetch_git_data, fetch_pr_number, fetch_vcs_entries,
    fetch_vcs_entry, repo_root, run_git_capture, vcs_patch, vcs_patch_bytes, worktree_add,
    worktree_remove, GitData, GitReplies, PrCache, VcsEntry, VcsKind, PR_CACHE_TTL,
};
use tmux_agent_sidebar::json::{parse_json, Json};
use tmux_agent_sidebar::textmap::TextSet;

#[test]
fn parse_diff_stat_both() {
    let result = parse_diff_stat("2 files changed, 4 insertions(+), 2 deletions(-)");
    assert_eq!(result, Some((4, 2)));
}

#[test]
fn parse_diff_stat_insertions_only() {
    let result = parse_diff_stat("1 file changed, 5 insertions(+)");
    assert_eq!(result, Some((5, 0)));
}

#[test]
fn parse_diff_stat_deletions_only() {
    let result = parse_diff_stat("1 file changed, 3 deletions(-)");
    assert_eq!(result, Some((0, 3)));
}

#[test]
fn parse_diff_stat_empty() {
    assert_eq!(parse_diff_stat(""), None);
}

#[test]
fn parse_diff_stat_whitespace() {
    assert_eq!(parse_diff_stat("   "), None);
}

#[test]
fn normalize_git_url_ssh() {
    assert_eq!(
        normalize_git_url("git@github.com:user/repo.git"),
        "https://github.com/user/repo"
    );
}

#[test]
fn normalize_git_url_https_with_git() {
    assert_eq!(
        normalize_git_url("https://github.com/user/repo.git"),
        "https://github.com/user/repo"
    );
}

#[test]
fn normalize_git_url_https_clean() {
    assert_eq!(
        normalize_git_url("https://github.com/user/repo"),
        "https://github.com/user/repo"
    );
}

#[test]
fn normalize_git_url_unknown_format() {
    assert_eq!(normalize_git_url("/local/path/repo"), "/local/path/repo");
}


#[test]
fn parse_status_short_staged_modified() {
    let mut data = GitData::default();
    parse_status_short("M  src/app.rs", &mut data);
    assert_eq!(data.staged_files.len(), 1);
    assert_eq!(data.staged_files[0].status, 'M');
    assert_eq!(data.staged_files[0].name, "app.rs");
    assert_eq!(data.staged_files[0].path, "src/app.rs");
    assert!(data.unstaged_files.is_empty());
    assert!(data.untracked_files.is_empty());
}

#[test]
fn parse_status_short_staged_added() {
    let mut data = GitData::default();
    parse_status_short("A  new.rs", &mut data);
    assert_eq!(data.staged_files.len(), 1);
    assert_eq!(data.staged_files[0].status, 'A');
    assert_eq!(data.staged_files[0].name, "new.rs");
}

#[test]
fn parse_status_short_unstaged_modified() {
    let mut data = GitData::default();
    parse_status_short(" M config.toml", &mut data);
    assert!(data.staged_files.is_empty());
    assert_eq!(data.unstaged_files.len(), 1);
    assert_eq!(data.unstaged_files[0].status, 'M');
    assert_eq!(data.unstaged_files[0].name, "config.toml");
}

#[test]
fn parse_status_short_both_staged_and_unstaged() {
    let mut data = GitData::default();
    parse_status_short("MM src/lib.rs", &mut data);
    assert_eq!(data.staged_files.len(), 1);
    assert_eq!(data.staged_files[0].status, 'M');
    assert_eq!(data.unstaged_files.len(), 1);
    assert_eq!(data.unstaged_files[0].status, 'M');
}

#[test]
fn parse_status_short_untracked() {
    let mut data = GitData::default();
    parse_status_short("?? tmp/debug.log", &mut data);
    assert!(data.staged_files.is_empty());
    assert!(data.unstaged_files.is_empty());
    assert_eq!(data.untracked_files, vec!["debug.log"]);
}

#[test]
fn parse_status_short_untracked_directory() {
    let mut data = GitData::default();
    parse_status_short("?? docs/superpowers/specs/", &mut data);
    assert_eq!(data.untracked_files, vec!["specs/"]);
}

#[test]
fn parse_status_short_untracked_top_level_directory() {
    let mut data = GitData::default();
    parse_status_short("?? mydir/", &mut data);
    assert_eq!(data.untracked_files, vec!["mydir/"]);
}

#[test]
fn parse_status_short_deleted() {
    let mut data = GitData::default();
    parse_status_short("D  old.rs", &mut data);
    assert_eq!(data.staged_files.len(), 1);
    assert_eq!(data.staged_files[0].status, 'D');
}

#[test]
fn parse_status_short_unstaged_deleted() {
    let mut data = GitData::default();
    parse_status_short(" D removed.rs", &mut data);
    assert!(data.staged_files.is_empty());
    assert_eq!(data.unstaged_files.len(), 1);
    assert_eq!(data.unstaged_files[0].status, 'D');
}

#[test]
fn parse_status_short_rename() {
    let mut data = GitData::default();
    parse_status_short("R  old.rs -> new.rs", &mut data);
    assert_eq!(data.staged_files.len(), 1);
    assert_eq!(data.staged_files[0].status, 'M'); // renames shown as M
    assert_eq!(data.staged_files[0].name, "new.rs");
    assert_eq!(data.staged_files[0].path, "new.rs");
}

#[test]
fn parse_status_short_same_basename_keeps_distinct_paths() {
    let mut data = GitData::default();
    parse_status_short("M  src/app.rs\nM  tests/app.rs", &mut data);
    assert_eq!(data.staged_files.len(), 2);
    assert_eq!(data.staged_files[0].name, "app.rs");
    assert_eq!(data.staged_files[0].path, "src/app.rs");
    assert_eq!(data.staged_files[1].name, "app.rs");
    assert_eq!(data.staged_files[1].path, "tests/app.rs");
}

#[test]
fn parse_numstat_keys_full_paths_before_basename_fallback() {
    let map = parse_numstat("1\t0\tsrc/app.rs\n2\t1\ttests/app.rs");
    assert_eq!(map.get("src/app.rs"), Some(&(1, 0)));
    assert_eq!(map.get("tests/app.rs"), Some(&(2, 1)));
}

#[test]
fn parse_status_short_multiple_lines() {
    let mut data = GitData::default();
    parse_status_short(
        "M  src/app.rs\nA  src/new.rs\n M config.toml\n?? tmp/log",
        &mut data,
    );
    assert_eq!(data.staged_files.len(), 2); // M staged + A staged
    assert_eq!(data.unstaged_files.len(), 1); // M unstaged
    assert_eq!(data.untracked_files.len(), 1); // ?? untracked
}

#[test]
fn parse_status_short_empty() {
    let mut data = GitData::default();
    parse_status_short("", &mut data);
    assert!(data.staged_files.is_empty());
    assert!(data.unstaged_files.is_empty());
    assert!(data.untracked_files.is_empty());
}

fn counting_fetcher<'a>(
    count: &'a Cell<usize>,
    result: Option<&'static str>,
) -> impl FnOnce(&str) -> Option<String> + 'a {
    move |_path: &str| {
        count.set(count.get() + 1);
        result.map(|s| s.to_string())
    }
}

#[test]
fn pr_cache_first_lookup_invokes_fetcher() {
    let mut cache = PrCache::new();
    let calls = Cell::new(0);
    let now: u64 = 1_000_000;
    let pr = cache.get_or_fetch("/a", "main", now, counting_fetcher(&calls, Some("42")));
    assert_eq!(pr.as_deref(), Some("42"));
    assert_eq!(calls.get(), 1);
}

#[test]
fn pr_cache_same_key_within_ttl_hits() {
    let mut cache = PrCache::new();
    let calls = Cell::new(0);
    let now: u64 = 1_000_000;
    cache.get_or_fetch("/a", "main", now, counting_fetcher(&calls, Some("42")));
    let pr = cache.get_or_fetch(
        "/a",
        "main",
        now + 1_000,
        counting_fetcher(&calls, Some("99")),
    );
    assert_eq!(pr.as_deref(), Some("42"), "cached value should be returned");
    assert_eq!(calls.get(), 1, "fetcher must not run on a cache hit");
}

#[test]
fn pr_cache_branch_change_refetches() {
    let mut cache = PrCache::new();
    let calls = Cell::new(0);
    let now: u64 = 1_000_000;
    cache.get_or_fetch("/a", "main", now, counting_fetcher(&calls, Some("42")));
    let pr = cache.get_or_fetch("/a", "feature", now, counting_fetcher(&calls, Some("77")));
    assert_eq!(pr.as_deref(), Some("77"));
    assert_eq!(calls.get(), 2);
}

#[test]
fn pr_cache_path_change_refetches() {
    let mut cache = PrCache::new();
    let calls = Cell::new(0);
    let now: u64 = 1_000_000;
    cache.get_or_fetch("/a", "main", now, counting_fetcher(&calls, Some("42")));
    let pr = cache.get_or_fetch("/b", "main", now, counting_fetcher(&calls, Some("77")));
    assert_eq!(pr.as_deref(), Some("77"));
    assert_eq!(calls.get(), 2);
}

#[test]
fn pr_cache_ttl_expiry_refetches() {
    let mut cache = PrCache::new();
    let calls = Cell::new(0);
    let now: u64 = 1_000_000;
    cache.get_or_fetch("/a", "main", now, counting_fetcher(&calls, Some("42")));
    let pr = cache.get_or_fetch(
        "/a",
        "main",
        now + PR_CACHE_TTL + 1_000,
        counting_fetcher(&calls, Some("77")),
    );
    assert_eq!(pr.as_deref(), Some("77"));
    assert_eq!(calls.get(), 2);
}

#[test]
fn pr_cache_empty_branch_skips_and_does_not_pollute_cache() {
    let mut cache = PrCache::new();
    let calls = Cell::new(0);
    let now: u64 = 1_000_000;
    // Empty branch → no fetch, None returned.
    let pr = cache.get_or_fetch(
        "/a",
        "",
        now,
        counting_fetcher(&calls, Some("should-not-run")),
    );
    assert!(pr.is_none());
    assert_eq!(calls.get(), 0);
    // Cache must still be empty: a real branch must invoke the fetcher.
    let pr = cache.get_or_fetch("/a", "main", now, counting_fetcher(&calls, Some("42")));
    assert_eq!(pr.as_deref(), Some("42"));
    assert_eq!(calls.get(), 1);
}

#[test]
fn pr_cache_detached_head_skips_and_does_not_pollute_cache() {
    // `git rev-parse --abbrev-ref HEAD` prints the literal "HEAD" when the
    // working tree is detached. A PR is always branch-scoped so that case
    // must short-circuit just like an empty branch.
    let mut cache = PrCache::new();
    let calls = Cell::new(0);
    let now: u64 = 1_000_000;
    let pr = cache.get_or_fetch(
        "/a",
        "HEAD",
        now,
        counting_fetcher(&calls, Some("should-not-run")),
    );
    assert!(pr.is_none());
    assert_eq!(calls.get(), 0);
    // Cache must be untouched: the next real branch still triggers a fetch.
    let pr = cache.get_or_fetch("/a", "main", now, counting_fetcher(&calls, Some("42")));
    assert_eq!(pr.as_deref(), Some("42"));
    assert_eq!(calls.get(), 1);
}

#[test]
fn pr_cache_none_result_is_cached() {
    let mut cache = PrCache::new();
    let calls = Cell::new(0);
    let now: u64 = 1_000_000;
    // First call returns None (no PR exists) — that None should be cached.
    cache.get_or_fetch("/a", "main", now, counting_fetcher(&calls, None));
    let pr = cache.get_or_fetch(
        "/a",
        "main",
        now + 1_000,
        counting_fetcher(&calls, Some("should-not-run")),
    );
    assert!(pr.is_none());
    assert_eq!(calls.get(), 1, "second call must hit the cached None");
}

#[test]
fn parses_arc_status_branch_json_and_detached_state() {
    assert_eq!(
        parse_arc_branch_json(r#"{"branch":"users/alice/topic"}"#).as_deref(),
        Some("users/alice/topic")
    );
    assert_eq!(parse_arc_branch_json(r#"{"branch":null}"#), None);
    assert_eq!(
        parse_arc_branch_text("  main\n* users/alice/topic\n").as_deref(),
        Some("users/alice/topic")
    );
    assert_eq!(parse_arc_branch_text("detached HEAD\n"), None);
}

#[test]
fn arc_diff_commands_use_documented_index_and_worktree_forms() {
    assert_eq!(
        arc_diff_args(true),
        ["diff", "--cached", "--no-color", "--git", "--binary"]
    );
    assert_eq!(
        arc_diff_args(false),
        ["diff", "--no-color", "--git", "--binary"]
    );
}

#[test]
fn arc_status_json_variants_deduplicate_untracked_paths() {
    let value = parse_json(
        r#"{"untracked":["a file",{"path":"b\"q"}],"files":[{"status":"??","path":"a file"}],"changes":[{"code":"untracked","name":"c"}],"ignore":"not-a-path"}"#,
    )
    .unwrap();
    let mut paths = TextSet::new();
    collect_arc_untracked(&value, false, &mut paths);
    assert_eq!(paths.to_list(), vec!["a file", "b\"q", "c"]);
}

#[test]
fn arc_status_rejects_path_traversal() {
    assert!(!safe_arc_relative_path("../outside"));
    assert!(!safe_arc_relative_path("/outside"));
}

#[test]
fn arc_patch_sections_parse_quoted_paths() {
    let sections = patch_sections(
        b"diff --git \"a/space \\\"quote\\\"\" \"b/space \\\"quote\\\"\"\n--- \"a/space \\\"quote\\\"\"\n",
    );
    assert_eq!(
        sections[0]
            .path
            .as_ref()
            .and_then(|paths| paths.new.as_deref()),
        Some(b"space \"quote\"".as_slice())
    );
}

#[test]
fn arc_normalizes_git_snapshot_paths() {
    let before = b"/tmp/before";
    let after = b"/tmp/after";
    let patch = normalize_snapshot_prefixes(
        b"diff --git a/tmp/before/file b/tmp/after/file\n--- a/tmp/before/file\n+++ b/tmp/after/file\n".to_vec(),
        before,
        after,
    );
    assert_eq!(patch, b"diff --git a/file b/file\n--- a/file\n+++ b/file\n");
}

#[test]
fn arc_normalizes_only_path_headers_not_hunks_or_binary_payload() {
    let patch = normalize_snapshot_prefixes(
        b"diff --git a/tmp/before/file b/tmp/after/file\n--- a/tmp/before/file\n+++ b/tmp/after/file\n+sentinel /tmp/before/file\nGIT binary patch\nliteral 3\n/tmp/after/file\n".to_vec(),
        b"/tmp/before",
        b"/tmp/after",
    );
    assert!(patch.starts_with(b"diff --git a/file b/file\n--- a/file\n+++ b/file\n"));
    assert!(patch.ends_with(
        b"+sentinel /tmp/before/file\nGIT binary patch\nliteral 3\n/tmp/after/file\n"
    ));
}

#[test]
fn arc_patch_sections_keep_non_utf8_paths_as_bytes() {
    let sections = patch_sections(b"diff --git \"a/non\\377utf8\" \"b/non\\377utf8\"\n");
    assert_eq!(
        sections[0]
            .path
            .as_ref()
            .and_then(|paths| paths.new.as_deref()),
        Some(b"non\xffutf8".as_slice())
    );
}

#[test]
fn arc_overlap_new_file_does_not_have_head_snapshot_path() {
    let cached = patch_sections(
        b"diff --git a/new b/new\nnew file mode 100644\n--- /dev/null\n+++ b/new\n",
    );
    let worktree = patch_sections(b"diff --git a/new b/new\n--- a/new\n+++ b/new\n");
    let snapshots = overlapping_snapshots(&cached, &worktree);
    assert_eq!(snapshots.len(), 1);
    assert_eq!(snapshots[0].before, None);
    assert_eq!(snapshots[0].after.as_deref(), Some(b"new".as_slice()));
}

#[test]
fn arc_normalizes_new_and_deleted_snapshot_headers() {
    let patch = normalize_snapshot_prefixes(
        b"diff --git a/tmp/after/new b/tmp/after/new\n--- /dev/null\n+++ b/tmp/after/new\ndiff --git a/tmp/before/old b/tmp/before/old\n--- a/tmp/before/old\n+++ /dev/null\n".to_vec(),
        b"/tmp/before",
        b"/tmp/after",
    );
    assert_eq!(patch, b"diff --git a/new b/new\n--- /dev/null\n+++ b/new\ndiff --git a/old b/old\n--- a/old\n+++ /dev/null\n");
}

#[test]
fn arc_overlap_rename_uses_old_head_and_new_final_path() {
    let cached = patch_sections(
        b"diff --git a/old b/new\nsimilarity index 100%\nrename from old\nrename to new\n",
    );
    let worktree = patch_sections(b"diff --git a/new b/new\n--- a/new\n+++ b/new\n");
    let snapshots = overlapping_snapshots(&cached, &worktree);
    assert_eq!(snapshots.len(), 1);
    assert_eq!(snapshots[0].before.as_deref(), Some(b"old".as_slice()));
    assert_eq!(snapshots[0].after.as_deref(), Some(b"new".as_slice()));
}

#[test]
fn sections_put_together_are_the_patch() {
    let patch: &[u8] = b"diff --git a/x b/x\n+1\ndiff --git a/y b/y\n-2";
    let mut joined: Vec<u8> = Vec::new();
    for section in patch_sections(patch) {
        joined.extend(section.bytes);
    }
    assert_eq!(joined, patch);
    let behind_words = patch_sections(b"preamble\ndiff --git a/x b/x\n");
    assert_eq!(behind_words.len(), 1);
    assert_eq!(behind_words[0].bytes, b"diff --git a/x b/x\n");
    assert_eq!(patch_sections(b"words\n")[0].bytes, b"words\n");
    assert!(patch_sections(b"").is_empty());
}

#[test]
fn merging_keeps_disjoint_sections_and_names_shared_files() {
    let cached = b"diff --git a/x b/x\n--- a/x\n+++ b/x\n+1\ndiff --git a/y b/y\n--- a/y\n+++ b/y\n+2\n";
    let worktree = b"diff --git a/x b/x\n--- a/x\n+++ b/x\n+3\n";
    let merged = merge_patches(cached, worktree);
    assert_eq!(
        merged.kept,
        b"diff --git a/y b/y\n--- a/y\n+++ b/y\n+2\n"
    );
    assert_eq!(merged.overlap.len(), 1);
    assert_eq!(merged.overlap[0].before.as_deref(), Some(b"x".as_slice()));
    let whole = arc_patch_bytes(merged, b"snapshot\n", &vec![b"untracked\n".to_vec()]);
    assert_eq!(
        whole,
        b"diff --git a/y b/y\n--- a/y\n+++ b/y\n+2\nsnapshot\nuntracked\n"
    );
}

#[test]
fn a_snapshot_is_left_out_without_shared_files() {
    let merged = merge_patches(b"diff --git a/x b/x\n", b"");
    assert_eq!(
        arc_patch_bytes(merged, b"snapshot\n", &Vec::new()),
        b"diff --git a/x b/x\n"
    );
}

#[test]
fn quoted_paths_read_back() {
    let path: &[u8] = b"b/tab\there \"and\" \\ \xff";
    let quoted = git_quote_path(&path[2..], b"b/");
    assert_eq!(parse_git_path_token(&quoted), Some(path.to_vec()));
    assert_eq!(git_quote_path(b"plain", b"a/"), b"a/plain");
}

#[test]
fn a_new_file_is_a_patch_of_added_lines() {
    assert_eq!(
        new_file_patch(b"f", "100644", b"one\ntwo"),
        b"diff --git a/f b/f\nnew file mode 100644\n--- /dev/null\n+++ b/f\n@@ -0,0 +1,2 @@\n+one\n+two\n\\ No newline at end of file\n".to_vec()
    );
}

#[test]
fn untracked_patches_tell_modes_links_and_binaries() {
    let text = String::from_utf8(arc_untracked_patch(
        "text space \"quote\"",
        FileKind::File { permissions: 0o644 },
        b"line",
    ))
    .unwrap();
    assert!(text.contains("new file mode 100644"));
    assert!(text.contains("\\ No newline at end of file"));
    assert!(text.contains("a/text\\040space"), "{text}");
    assert!(text.contains("\\\"quote\\\""));
    let empty = String::from_utf8(arc_untracked_patch(
        "empty",
        FileKind::File { permissions: 0o600 },
        b"",
    ))
    .unwrap();
    assert!(empty.contains("new file mode 100644"));
    assert!(!empty.contains("@@"));
    assert!(String::from_utf8(arc_untracked_patch(
        "exec",
        FileKind::File { permissions: 0o755 },
        b"#!/bin/sh\n"
    ))
    .unwrap()
    .contains("new file mode 100755"));
    assert!(
        String::from_utf8(arc_untracked_patch("link", FileKind::Link, b"target"))
            .unwrap()
            .contains("new file mode 120000")
    );
    assert!(String::from_utf8(arc_untracked_patch(
        "binary",
        FileKind::File { permissions: 0o644 },
        &[0, 255]
    ))
    .unwrap()
    .contains("Binary files /dev/null and b/binary differ"));
    assert!(arc_untracked_patch("socket", FileKind::Other, b"x").is_empty());
}

#[test]
fn patches_are_counted_without_headers() {
    assert_eq!(
        patch_stat(b"--- a/x\n+++ b/x\n@@\n+one\n+two\n-three\n four\n"),
        (2, 1)
    );
}

#[test]
fn relative_paths_never_go_up() {
    assert!(safe_arc_relative_path("a/b"));
    assert!(safe_arc_relative_path("a/./b/"));
    assert!(safe_arc_relative_path("..a"));
    assert!(!safe_arc_relative_path(""));
    assert!(!safe_arc_relative_path("./a"));
    assert!(!safe_arc_relative_path("a/../b"));
    assert!(safe_arc_relative_path_bytes(b"a/\xff"));
    assert!(!safe_arc_relative_path_bytes(b""));
    assert!(!safe_arc_relative_path_bytes(b"/a"));
    assert!(!safe_arc_relative_path_bytes(b"."));
    assert!(!safe_arc_relative_path_bytes(b"a/.."));
}

#[test]
fn a_directory_holds_itself_and_what_is_below() {
    assert!(lies_inside(b"/mnt/a", b"/mnt/a"));
    assert!(lies_inside(b"/mnt/a/b", b"/mnt/a"));
    assert!(lies_inside(b"/mnt", b"/"));
    assert!(!lies_inside(b"/mnt/ab", b"/mnt/a"));
    assert!(!lies_inside(b"/mnt", b"/mnt/a"));
}

#[test]
fn untracked_paths_are_sorted_and_safe() {
    let status = br#"{"untracked":["z","a","../up","/root"]}"#;
    assert_eq!(arc_untracked_paths(status).unwrap(), ["a", "z"]);
    assert_eq!(
        arc_untracked_paths(b"no json"),
        Err("expected ident at line 1 column 2".to_string())
    );
    let document = Json::Fields(vec![(
        "untracked".to_string(),
        Json::List(vec![
            Json::Text("b".to_string()),
            Json::Number("1".to_string()),
            Json::Text("b".to_string()),
        ]),
    )]);
    assert_eq!(untracked_paths(&document), ["b"]);
}

#[test]
fn a_status_that_is_no_text_hides_the_code() {
    let document = parse_json(r#"[{"status":[],"code":"??","path":"p"},{"code":"Untracked","file":"f"}]"#).unwrap();
    assert_eq!(untracked_paths(&document), ["f"]);
}

#[test]
fn json_keeps_every_kind_of_value() {
    assert_eq!(
        parse_json(r#"{"n":null,"t":true,"i":-2,"s":"x","l":[1,"y"]}"#).unwrap(),
        Json::Fields(vec![
            ("i".to_string(), Json::Number("-2".to_string())),
            (
                "l".to_string(),
                Json::List(vec![
                    Json::Number("1".to_string()),
                    Json::Text("y".to_string())
                ])
            ),
            ("n".to_string(), Json::Null),
            ("s".to_string(), Json::Text("x".to_string())),
            ("t".to_string(), Json::Bool(true)),
        ])
    );
    assert!(!parse_json("{").unwrap_err().is_empty());
}

#[test]
fn a_branch_is_the_first_text_and_never_empty() {
    let document = parse_json(r#"{"branch":7,"current_branch":"main"}"#).unwrap();
    assert_eq!(branch_of(&document).as_deref(), Some("main"));
    assert_eq!(parse_arc_branch_json(r#"{"branch":"","currentBranch":"x"}"#), None);
    assert_eq!(parse_arc_branch_json(r#"{"currentBranch":"x"}"#).as_deref(), Some("x"));
    assert_eq!(parse_arc_branch_json("not json"), None);
    assert_eq!(
        parse_arc_branch_text("current: trunk\n* other").as_deref(),
        Some("trunk")
    );
}

#[test]
fn export_needs_a_path() {
    let added = vec![SnapshotPath {
        before: None,
        after: Some(b"new".to_vec()),
    }];
    assert_eq!(export_args(&added, b"/tmp/d"), None);
    let changed = vec![SnapshotPath {
        before: Some(b"old".to_vec()),
        after: None,
    }];
    assert_eq!(
        export_args(&changed, b"/tmp/d"),
        Some(vec![
            b"export".to_vec(),
            b"HEAD".to_vec(),
            b"old".to_vec(),
            b"--to".to_vec(),
            b"/tmp/d".to_vec()
        ])
    );
    assert_eq!(before_paths(&changed), vec![b"old".to_vec()]);
    assert_eq!(after_paths(&added), vec![b"new".to_vec()]);
}

#[test]
fn commands_end_in_time() {
    assert_eq!(wait_step(true, COMMAND_DEADLINE_MS + 1), WaitStep::Finish);
    assert_eq!(wait_step(false, COMMAND_DEADLINE_MS), WaitStep::GiveUp);
    assert_eq!(wait_step(false, COMMAND_DEADLINE_MS - 1), WaitStep::Sleep);
    assert_eq!(timed_out("arc"), "arc timed out");
}

#[test]
fn output_is_kept_and_complaints_are_trimmed() {
    assert_eq!(
        command_output(true, Some(0), false, b"out\n".to_vec(), b""),
        Ok(b"out\n".to_vec())
    );
    assert_eq!(
        command_output(false, Some(1), true, b"diff\n".to_vec(), b""),
        Ok(b"diff\n".to_vec())
    );
    assert_eq!(
        command_output(false, Some(1), false, b"diff\n".to_vec(), b" bad \n"),
        Err("bad".to_string())
    );
    assert_eq!(
        command_output(false, None, true, Vec::new(), b"\xffx"),
        Err("\u{fffd}x".to_string())
    );
}

#[test]
fn replies_are_trimmed_and_never_empty() {
    assert_eq!(run_git(true, b" main\n"), Some("main".to_string()));
    assert_eq!(run_git(true, b" \n"), None);
    assert_eq!(run_git(false, b"main"), None);
    assert_eq!(
        run_git_capture(true, "", b" ok \n", b""),
        Ok("ok".to_string())
    );
    assert_eq!(
        run_git_capture(false, "exit status: 128", b"", b" \n"),
        Err("git exited with status exit status: 128".to_string())
    );
    assert_eq!(
        run_git_capture(false, "exit status: 1", b"", b" fatal: x\n"),
        Err("fatal: x".to_string())
    );
    assert_eq!(fetch_pr_number(true, b"42\n".to_vec()), Some("42".to_string()));
    assert_eq!(fetch_pr_number(true, b"\n".to_vec()), None);
    assert_eq!(fetch_pr_number(true, b"\xff".to_vec()), None);
    assert_eq!(fetch_pr_number(false, b"42\n".to_vec()), None);
}

#[test]
fn git_is_asked_in_a_directory() {
    assert_eq!(
        git_args("/r", &GitQuery::Branch.args()),
        ["-C", "/r", "rev-parse", "--abbrev-ref", "HEAD"]
    );
    assert_eq!(repo_root("/r"), ["-C", "/r", "rev-parse", "--show-toplevel"]);
    assert_eq!(
        branch_exists("/r", "b"),
        ["-C", "/r", "show-ref", "--verify", "--quiet", "refs/heads/b"]
    );
    assert_eq!(
        worktree_add("/r", "/w", "b"),
        ["-C", "/r", "worktree", "add", "/w", "-b", "b"]
    );
    assert_eq!(
        worktree_remove("/r", "/w"),
        ["-C", "/r", "worktree", "remove", "--force", "/w"]
    );
    assert_eq!(branch_delete("/r", "b"), ["-C", "/r", "branch", "-D", "b"]);
    assert_eq!(
        untracked_patch_args("p"),
        ["diff", "--no-index", "--no-color", "--binary", "/dev/null", "p"]
    );
    assert_eq!(
        snapshot_patch_args("a", "b"),
        ["diff", "--no-index", "--no-color", "--binary", "--", "a", "b"]
    );
    assert_eq!(GitQuery::AheadBehind.args().last().unwrap(), "HEAD...@{upstream}");
    assert_eq!(GitQuery::Untracked.args()[3], "--untracked-files=all");
    assert_eq!(GitQuery::Patch.args()[1], "HEAD");
}

#[test]
fn untracked_fields_are_told_from_others() {
    assert_eq!(
        git_untracked_paths(b"?? a b\0 M c\0?? \xff\0"),
        ["a b", "\u{fffd}"]
    );
}

#[test]
fn renamed_paths_are_the_new_ones() {
    assert_eq!(normalize_git_path(" a -> b -> c "), "c");
    assert_eq!(normalize_git_path("a => b"), "b");
    assert_eq!(normalize_git_path("a"), "a");
}

#[test]
fn a_status_can_be_checked_before_it_is_read() {
    assert!(is_status_readable("M  a\n?\n"));
    assert!(is_status_readable("?? \u{e9}"));
    assert!(!is_status_readable("ab\u{e9}"));
}

#[test]
fn git_data_is_put_together() {
    let replies = GitReplies {
        status: Some("M  src/a.rs\n D b.rs\n?? c/".to_string()),
        shortstat: Some(" 1 file changed, 2 insertions(+), 1 deletion(-)".to_string()),
        branch: Some("main".to_string()),
        ahead_behind: Some("2\t1".to_string()),
        staged_numstat: Some("3\t4\tsrc/a.rs".to_string()),
        unstaged_numstat: Some("-\t5\tb.rs".to_string()),
        remote: Some("git@github.com:user/repo.git".to_string()),
    };
    let data = fetch_git_data(&replies);
    assert_eq!(data.diff_stat, Some((2, 1)));
    assert_eq!(data.branch, "main");
    assert_eq!(data.ahead_behind, Some((2, 1)));
    assert_eq!(data.staged_files[0].additions, 3);
    assert_eq!(data.staged_files[0].deletions, 4);
    assert_eq!(data.unstaged_files[0].additions, 0);
    assert_eq!(data.unstaged_files[0].deletions, 5);
    assert_eq!(data.untracked_files, ["c/"]);
    assert_eq!(data.remote_url, "https://github.com/user/repo");
    assert_eq!(data.pr_number, None);
    assert_eq!(data.changed_file_count(), 3);
}

#[test]
fn a_status_keeps_the_blank_of_its_first_line() {
    let status = run_git_whole(true, b" M config.toml\nA  new.rs\n");
    assert_eq!(status.as_deref(), Some(" M config.toml\nA  new.rs\n"));
    assert_eq!(run_git(true, b" M config.toml\n").as_deref(), Some("M config.toml"));
    assert_eq!(run_git_whole(true, b" \n"), None);
    assert_eq!(run_git_whole(false, b" M config.toml\n"), None);
    let data = fetch_git_data(&GitReplies {
        status,
        shortstat: None,
        branch: None,
        ahead_behind: None,
        staged_numstat: None,
        unstaged_numstat: None,
        remote: None,
    });
    assert_eq!(data.unstaged_files[0].name, "config.toml");
    assert_eq!(data.unstaged_files[0].status, 'M');
    assert_eq!(data.staged_files.len(), 1);
    assert_eq!(data.staged_files[0].name, "new.rs");
}

#[test]
fn git_data_without_replies_is_blank() {
    let replies = GitReplies {
        status: None,
        shortstat: None,
        branch: None,
        ahead_behind: Some("1".to_string()),
        staged_numstat: None,
        unstaged_numstat: None,
        remote: None,
    };
    let data = fetch_git_data(&replies);
    assert_eq!(data.changed_file_count(), 0);
    assert_eq!(data.ahead_behind, None);
    assert!(data.branch.is_empty());
}

fn git_probe(status: &[u8]) -> GitProbe {
    GitProbe {
        root: "/r".to_string(),
        branch: None,
        shortstat: Some("1 file changed, 2 insertions(+)".to_string()),
        staged_shortstat: Some("1 file changed, 3 insertions(+), 1 deletion(-)".to_string()),
        status: Some(status.to_vec()),
    }
}

#[test]
fn arc_is_believed_before_git() {
    let arc = Some(ArcProbe {
        root: "/arc".to_string(),
        status_json: None,
        status_text: Some("* trunk".to_string()),
        patch: Some(b"+a\n-b\n".to_vec()),
    });
    let git = Some(git_probe(b""));
    let entry = fetch_vcs_entry(&arc, &git).unwrap();
    assert_eq!(
        entry,
        VcsEntry {
            kind: VcsKind::Arc,
            root: "/arc".to_string(),
            branch: "trunk".to_string(),
            diff_stat: Some((1, 1)),
        }
    );
    assert_eq!(entry.kind.label(), "Arc");
}

#[test]
fn a_git_entry_counts_untracked_files() {
    let git = Some(git_probe(b"?? a\0?? b\0"));
    assert!(is_countable(&None, &git));
    let entry = fetch_vcs_entry(&None, &git).unwrap();
    assert_eq!(entry.kind.label(), "Git");
    assert_eq!(entry.branch, "HEAD");
    assert_eq!(entry.diff_stat, Some((7, 1)));
    assert!(fetch_vcs_entry(&None, &None).is_none());
    let mut huge = git_probe(b"?? a\0");
    huge.shortstat = Some(format!("{} insertions(+)", usize::MAX));
    assert!(!is_countable(&None, &Some(huge)));
}

fn entry(kind: VcsKind, root: &str, branch: &str, added: usize) -> Option<VcsEntry> {
    Some(VcsEntry {
        kind,
        root: root.to_string(),
        branch: branch.to_string(),
        diff_stat: Some((added, 0)),
    })
}

#[test]
fn entries_are_sorted_and_listed_once() {
    let listed = fetch_vcs_entries(vec![
        entry(VcsKind::Git, "/b", "main", 1),
        None,
        entry(VcsKind::Git, "/a", "z", 2),
        entry(VcsKind::Git, "/b", "main", 3),
        entry(VcsKind::Git, "/a", "m", 4),
        entry(VcsKind::Arc, "/b", "main", 5),
    ]);
    let shown: Vec<(VcsKind, &str, &str, Option<(usize, usize)>)> = listed
        .iter()
        .map(|item| (item.kind, item.root.as_str(), item.branch.as_str(), item.diff_stat))
        .collect();
    assert_eq!(
        shown,
        vec![
            (VcsKind::Git, "/a", "m", Some((4, 0))),
            (VcsKind::Git, "/a", "z", Some((2, 0))),
            (VcsKind::Git, "/b", "main", Some((1, 0))),
            (VcsKind::Arc, "/b", "main", Some((5, 0))),
        ]
    );
}

fn made(kind: VcsKind, replies: Vec<Result<Vec<u8>, String>>) -> Result<Vec<u8>, String> {
    match vcs_patch_bytes(kind, &replies) {
        PatchStep::Done(patch) => patch,
        step => panic!("not done: {step:?}"),
    }
}

fn git_args_after(replies: Vec<Result<Vec<u8>, String>>) -> (Vec<String>, bool) {
    match vcs_patch_bytes(VcsKind::Git, &replies) {
        PatchStep::Git { args, allow_diff_exit } => (args, allow_diff_exit),
        step => panic!("not a git command: {step:?}"),
    }
}

#[test]
fn patches_reach_the_viewer_unchanged() {
    let known = Ok(b"known\n".to_vec());
    let status = Ok(b"?? a\0 M x\0?? b\0".to_vec());
    let patch = made(
        VcsKind::Git,
        vec![known, status, Ok(b"one\n".to_vec()), Ok(b"two\n".to_vec())],
    )
    .unwrap();
    assert_eq!(patch, b"known\none\ntwo\n");
    assert_eq!(vcs_patch(Ok(patch)), Ok("known\none\ntwo\n".to_string()));
    assert_eq!(
        vcs_patch(Ok(vec![0xff])),
        Err("patch is not UTF-8".to_string())
    );
    assert_eq!(
        vcs_patch(Err("git timed out".to_string())),
        Err("git timed out".to_string())
    );
}

#[test]
fn a_git_patch_is_made_step_by_step() {
    let known = || Ok(b"known\n".to_vec());
    let status = || Ok(b"?? a\0 M x\0?? b\0".to_vec());
    let (args, allowed) = git_args_after(Vec::new());
    assert_eq!(args, ["diff", "HEAD", "--no-color", "--binary", "--"]);
    assert!(!allowed);
    let (args, allowed) = git_args_after(vec![known()]);
    assert_eq!(args, ["status", "--porcelain=v1", "-z", "--untracked-files=all"]);
    assert!(!allowed);
    let (args, allowed) = git_args_after(vec![known(), status(), Ok(b"one\n".to_vec())]);
    assert_eq!(args, ["diff", "--no-index", "--no-color", "--binary", "/dev/null", "b"]);
    assert!(allowed);
}

#[test]
fn a_failed_step_leaves_no_part_of_a_patch() {
    let failed = || Err("no".to_string());
    let known = || Ok(b"known\n".to_vec());
    assert_eq!(made(VcsKind::Git, vec![failed()]), failed());
    assert_eq!(made(VcsKind::Git, vec![known(), failed()]), failed());
    assert_eq!(
        made(VcsKind::Git, vec![known(), Ok(b"?? a\0?? b\0".to_vec()), failed()]),
        failed()
    );
    assert_eq!(
        made(VcsKind::Arc, vec![failed()]),
        Err("cannot create Arc cached patch: no".to_string())
    );
    assert_eq!(
        made(VcsKind::Arc, vec![Ok(Vec::new()), failed()]),
        Err("cannot create Arc worktree patch: no".to_string())
    );
    assert_eq!(made(VcsKind::Arc, vec![Ok(Vec::new()), Ok(Vec::new()), failed()]), failed());
    assert!(made(VcsKind::Arc, vec![Ok(Vec::new()), Ok(Vec::new()), Ok(b"{".to_vec())]).is_err());
}

#[test]
fn an_arc_patch_is_made_step_by_step() {
    let cached = || Ok(b"diff --git a/x b/x\n+1\n".to_vec());
    let worktree = || Ok(b"diff --git a/x b/x\n+2\n".to_vec());
    let arc_args = |replies: Vec<Result<Vec<u8>, String>>| {
        match vcs_patch_bytes(VcsKind::Arc, &replies) {
            PatchStep::Arc { args } => args,
            step => panic!("not an Arc command: {step:?}"),
        }
    };
    assert_eq!(arc_args(Vec::new()), ["diff", "--cached", "--no-color", "--git", "--binary"]);
    assert_eq!(arc_args(vec![cached()]), ["diff", "--no-color", "--git", "--binary"]);
    match vcs_patch_bytes(VcsKind::Arc, &vec![cached(), worktree()]) {
        PatchStep::Snapshot { paths } => {
            assert_eq!(paths.len(), 1);
            assert_eq!(paths[0].after.as_deref(), Some(&b"x"[..]));
        }
        step => panic!("not a snapshot: {step:?}"),
    }
    let shown = || Ok(b"shown\n".to_vec());
    assert_eq!(arc_args(vec![cached(), worktree(), shown()]), ["status", "--json"]);
    let status = || Ok(br#"{"untracked":[{"path":"new.rs"}]}"#.to_vec());
    match vcs_patch_bytes(VcsKind::Arc, &vec![cached(), worktree(), shown(), status()]) {
        PatchStep::Added { path } => assert_eq!(path, "new.rs"),
        step => panic!("not a new file: {step:?}"),
    }
    let added = Ok(b"added\n".to_vec());
    assert_eq!(
        made(VcsKind::Arc, vec![cached(), worktree(), shown(), status(), added]),
        Ok(b"shown\nadded\n".to_vec())
    );
    let only_worktree = vec![Ok(Vec::new()), Ok(b"x\n".to_vec()), Ok(b"{}".to_vec())];
    assert_eq!(made(VcsKind::Arc, only_worktree), Ok(b"x\n".to_vec()));
}

#[test]
fn bytes_are_split_and_found() {
    assert_eq!(
        bytes::split(b"a,,b", b','),
        vec![b"a".to_vec(), Vec::new(), b"b".to_vec()]
    );
    assert_eq!(bytes::find(b"xaab", b"ab", 0), Some(2));
    assert_eq!(bytes::find(b"xaab", b"ba", 0), None);
}
