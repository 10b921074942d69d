//! The viewer that a patch is shown in.

use vstd::prelude::*;

use crate::git;
use crate::git::VcsKind;
use crate::json;
use crate::json::{parse_json, Json};
use crate::scan;
use crate::scan::{contains, lower};
use crate::text;
use crate::text::{chars_of, concat2, concat3, owned, same};

verus! {

/// The option that names the viewer.
pub const DIFF_VIEWER_OPTION: &'static str = "@sidebar_diff_viewer_command";

// The viewer.

/// The texts of a list, where it holds nothing else.
pub open spec fn all_texts(items: Seq<Json>) -> Option<Seq<Seq<char>>>
    decreases items.len(),
{
    if items.len() == 0 {
        Some(Seq::<Seq<char>>::empty())
    } else {
        match (all_texts(items.drop_last()), items.last()) {
            (Some(list), Json::Text(value)) => Some(list.push(value@)),
            _ => None,
        }
    }
}

/// The words of a document that is a list of texts.
pub open spec fn words_in(document: Option<Json>) -> Option<Seq<Seq<char>>> {
    match document {
        Some(Json::List(items)) => all_texts(items@),
        _ => None,
    }
}

/// Whether words name a program.
pub open spec fn names_program(words: Seq<Seq<char>>) -> bool {
    words.len() > 0 && words[0].len() > 0
}

/// What a document says of the viewer: its program with arguments, or what is wrong.
pub open spec fn viewer_in(document: Option<Json>) -> Result<Seq<Seq<char>>, Seq<char>> {
    match words_in(document) {
        Some(words) => if names_program(words) {
            Ok(words)
        } else {
            Err("@sidebar_diff_viewer_command must name an executable"@)
        },
        None => Err("@sidebar_diff_viewer_command must be a JSON argv array"@),
    }
}

/// The model of words, or of what is wrong.
pub open spec fn told(words: Result<Vec<String>, String>) -> Result<Seq<Seq<char>>, Seq<char>> {
    match words {
        Ok(list) => Ok(text::texts(list@)),
        Err(message) => Err(message@),
    }
}

proof fn one_that_is_no_text(items: Seq<Json>, count: int)
    requires
        0 < count <= items.len(),
        !(items[count - 1] is Text) || all_texts(items.take(count - 1)) is None,
    ensures
        all_texts(items) is None,
    decreases items.len(),
{
    if count == items.len() {
        assert(items.take(count - 1) =~= items.drop_last());
    } else {
        assert(items.drop_last().take(count - 1) =~= items.take(count - 1));
        one_that_is_no_text(items.drop_last(), count);
    }
}

fn list_words(items: &Vec<Json>) -> (words: Option<Vec<String>>)
    ensures
        match words {
            Some(list) => all_texts(items@) == Some(text::texts(list@)),
            None => all_texts(items@) is None,
        },
{
    let mut list: Vec<String> = Vec::new();
    let mut i: usize = 0;
    proof {
        assert(items@.take(0) =~= Seq::<Json>::empty());
        assert(text::texts(list@) =~= Seq::<Seq<char>>::empty());
    }
    while i < items.len()
        invariant
            i <= items@.len(),
            all_texts(items@.take(i as int)) == Some(text::texts(list@)),
        decreases items@.len() - i,
    {
        let ghost before = text::texts(list@);
        match &items[i] {
            Json::Text(value) => {
                list.push(owned(value.as_str()));
                proof {
                    assert(items@.take(i + 1).drop_last() =~= items@.take(i as int));
                    assert(text::texts(list@) =~= before.push(value@));
                }
            },
            _ => {
                proof {
                    one_that_is_no_text(items@, i + 1);
                }
                return None;
            },
        }
        i = i + 1;
    }
    proof {
        assert(items@.take(i as int) =~= items@);
    }
    Some(list)
}

/// The program and the arguments that a document names.
pub fn viewer_command(document: Option<&Json>) -> (argv: Result<Vec<String>, String>)
    ensures
        told(argv) == viewer_in(
            match document {
                Some(found) => Some(*found),
                None => None,
            },
        ),
{
    let words = match document {
        Some(Json::List(items)) => list_words(items),
        _ => None,
    };
    match words {
        Some(list) => {
            proof {
                if list@.len() > 0 {
                    assert(text::texts(list@)[0] == list@[0]@);
                }
            }
            if list.len() == 0 || list[0].as_str().is_empty() {
                Err(owned("@sidebar_diff_viewer_command must name an executable"))
            } else {
                Ok(list)
            }
        },
        None => Err(owned("@sidebar_diff_viewer_command must be a JSON argv array")),
    }
}

/// The program and the arguments that an option names, a list of texts in JSON. A
/// line for a shell is none.
pub fn parse_viewer_command(value: &str) -> (argv: Result<Vec<String>, String>)
    ensures
        told(argv) == viewer_in(json::document_read(json::json_in_text(value@))),
{
    match parse_json(value) {
        Ok(document) => viewer_command(Some(&document)),
        Err(_) => viewer_command(None),
    }
}

/// What the option says of the viewer.
pub open spec fn viewer_set(config: Option<Seq<char>>) -> Result<Seq<Seq<char>>, Seq<char>> {
    match config {
        Some(value) => viewer_in(json::document_read(json::json_in_text(value))),
        None => Err("@sidebar_diff_viewer_command is not configured"@),
    }
}

/// The program and the arguments of the viewer, where the option is set.
pub fn configured_viewer(config: Option<&str>) -> (argv: Result<Vec<String>, String>)
    ensures
        told(argv) == viewer_set(text::opt_ref(config)),
{
    match config {
        Some(value) => parse_viewer_command(value),
        None => Err(owned("@sidebar_diff_viewer_command is not configured")),
    }
}

/// Whether a program is named by its place, and so not looked for.
pub fn names_place(program: &str) -> (yes: bool)
    ensures
        yes == scan::contains_text(program@, "/"@),
{
    contains(program, "/")
}

/// What is said of a program that was not found.
pub open spec fn not_found(program: Seq<char>) -> Seq<char> {
    if scan::contains_text(program, "/"@) {
        "diff viewer not found: "@ + program
    } else {
        "diff viewer not found in PATH: "@ + program
    }
}

/// Whether a program can be started, `found` telling whether an executable file of
/// that name is there.
pub fn resolve_executable(program: &str, found: bool) -> (result: Result<(), String>)
    ensures
        match result {
            Ok(_) => found,
            Err(message) => !found && message@ == not_found(program@),
        },
{
    if found {
        Ok(())
    } else if names_place(program) {
        Err(concat2("diff viewer not found: ", program))
    } else {
        Err(concat2("diff viewer not found in PATH: ", program))
    }
}

// Quoting.

/// A character inside single quotes of a shell.
pub open spec fn quoted_char(ch: char) -> Seq<char> {
    if ch == '\'' {
        seq!['\'', '"', '\'', '"', '\'']
    } else {
        seq![ch]
    }
}

/// A text inside single quotes of a shell.
pub open spec fn quoted_inside(value: Seq<char>) -> Seq<char>
    decreases value.len(),
{
    if value.len() == 0 {
        value
    } else {
        quoted_inside(value.drop_last()) + quoted_char(value.last())
    }
}

/// A text as one word of a shell.
pub open spec fn quoted(value: Seq<char>) -> Seq<char> {
    seq!['\''] + quoted_inside(value) + seq!['\'']
}

/// A text as one word of a POSIX shell.
pub fn shell_quote(value: &str) -> (word: String)
    ensures
        word@ == quoted(value@),
{
    let chars = chars_of(value);
    let mut out = String::new();
    out.push('\'');
    let mut i: usize = 0;
    proof {
        assert(value@.take(0) =~= Seq::<char>::empty());
        assert(out@ =~= seq!['\''] + quoted_inside(value@.take(0)));
    }
    while i < chars.len()
        invariant
            i <= chars@.len(),
            chars@ == value@,
            out@ == seq!['\''] + quoted_inside(value@.take(i as int)),
        decreases chars@.len() - i,
    {
        let ch = chars[i];
        let ghost before = out@;
        proof {
            assert(value@.take(i + 1).drop_last() =~= value@.take(i as int));
        }
        if ch == '\'' {
            out.push('\'');
            out.push('"');
            out.push('\'');
            out.push('"');
            out.push('\'');
        } else {
            out.push(ch);
        }
        i = i + 1;
        proof {
            assert(out@ =~= before + quoted_char(ch));
            assert(out@ =~= seq!['\''] + quoted_inside(value@.take(i as int)));
        }
    }
    out.push('\'');
    proof {
        assert(value@.take(i as int) =~= value@);
        assert(out@ =~= quoted(value@));
    }
    out
}

/// Where a shell is in a word.
pub enum ShellMode {
    Bare,
    Single,
    Double,
}

/// What a shell has read of a word, where it took every character as it is.
pub struct ShellRead {
    pub mode: ShellMode,
    pub word: Seq<char>,
}

/// What a shell has read after one more character.
pub open spec fn shell_step(read: Option<ShellRead>, ch: char) -> Option<ShellRead> {
    match read {
        None => None,
        Some(known) => match known.mode {
            ShellMode::Bare => if ch == '\'' {
                Some(ShellRead { mode: ShellMode::Single, word: known.word })
            } else if ch == '"' {
                Some(ShellRead { mode: ShellMode::Double, word: known.word })
            } else {
                None
            },
            ShellMode::Single => if ch == '\'' {
                Some(ShellRead { mode: ShellMode::Bare, word: known.word })
            } else {
                Some(ShellRead { mode: ShellMode::Single, word: known.word.push(ch) })
            },
            ShellMode::Double => if ch == '"' {
                Some(ShellRead { mode: ShellMode::Bare, word: known.word })
            } else if ch == '\\' || ch == '$' || ch == '`' {
                None
            } else {
                Some(ShellRead { mode: ShellMode::Double, word: known.word.push(ch) })
            },
        },
    }
}

/// What a shell reads in a text of quoted parts.
pub open spec fn shell_reads(text: Seq<char>) -> Option<ShellRead>
    decreases text.len(),
{
    if text.len() == 0 {
        Some(ShellRead { mode: ShellMode::Bare, word: Seq::empty() })
    } else {
        shell_step(shell_reads(text.drop_last()), text.last())
    }
}

proof fn one_more(text: Seq<char>, ch: char)
    ensures
        shell_reads(text.push(ch)) == shell_step(shell_reads(text), ch),
{
    assert(text.push(ch).drop_last() =~= text);
}

proof fn inside_reads_back(value: Seq<char>)
    ensures
        shell_reads(seq!['\''] + quoted_inside(value)) == Some(
            ShellRead { mode: ShellMode::Single, word: value },
        ),
    decreases value.len(),
{
    if value.len() == 0 {
        one_more(Seq::empty(), '\'');
        assert(Seq::<char>::empty().push('\'') =~= seq!['\''] + quoted_inside(value));
        assert(value =~= Seq::<char>::empty());
    } else {
        let rest = value.drop_last();
        let ch = value.last();
        inside_reads_back(rest);
        let head = seq!['\''] + quoted_inside(rest);
        assert(rest.push(ch) =~= value);
        if ch == '\'' {
            let a = head.push('\'');
            let b = a.push('"');
            let c = b.push('\'');
            let d = c.push('"');
            let e = d.push('\'');
            one_more(head, '\'');
            one_more(a, '"');
            one_more(b, '\'');
            one_more(c, '"');
            one_more(d, '\'');
            assert(seq!['\''] + quoted_inside(value) =~= e);
        } else {
            one_more(head, ch);
            assert(seq!['\''] + quoted_inside(value) =~= head.push(ch));
        }
    }
}

/// A shell reads a quoted text back as it was, whatever it holds.
pub proof fn shell_reads_back(value: Seq<char>)
    ensures
        shell_reads(quoted(value)) == Some(ShellRead { mode: ShellMode::Bare, word: value }),
{
    inside_reads_back(value);
    let head = seq!['\''] + quoted_inside(value);
    one_more(head, '\'');
    assert(quoted(value) =~= head.push('\''));
}

// The popup.

/// The arguments that open a popup with a command.
pub open spec fn popup_args(executable: Seq<char>, target: Seq<char>) -> Seq<Seq<char>> {
    seq![
        "display-popup"@,
        "-E"@,
        "-w"@,
        "100%"@,
        "-h"@,
        "100%"@,
        quoted(executable) + " view-patch "@ + quoted(target),
    ]
}

fn popup(executable: &str, target: &str) -> (args: Vec<String>)
    ensures
        text::texts(args@) == popup_args(executable@, target@),
{
    let command = concat3(
        shell_quote(executable).as_str(),
        " view-patch ",
        shell_quote(target).as_str(),
    );
    let mut args: Vec<String> = Vec::new();
    args.push(owned("display-popup"));
    args.push(owned("-E"));
    args.push(owned("-w"));
    args.push(owned("100%"));
    args.push(owned("-h"));
    args.push(owned("100%"));
    args.push(command);
    proof {
        assert(text::texts(args@) =~= popup_args(executable@, target@));
    }
    args
}

/// The command of tmux that shows a patch in a popup, given the viewer. The target
/// travels as an argument, so that no other popup can change it. `found` tells
/// whether the viewer's program is there.
pub fn popup_for_viewer(
    viewer: Result<Vec<String>, String>,
    found: bool,
    executable: &str,
    target: &str,
) -> (args: Result<Vec<String>, String>)
    requires
        viewer matches Ok(words) ==> words@.len() > 0,
    ensures
        told(args) == popup_told(told(viewer), found, executable@, target@),
{
    match viewer {
        Ok(words) => {
            proof {
                assert(text::texts(words@)[0] == words@[0]@);
            }
            match resolve_executable(words[0].as_str(), found) {
                Ok(()) => Ok(popup(executable, target)),
                Err(message) => Err(message),
            }
        },
        Err(message) => Err(message),
    }
}

/// The command of tmux that shows a patch in a popup, or what is wrong.
pub open spec fn popup_told(
    viewer: Result<Seq<Seq<char>>, Seq<char>>,
    found: bool,
    executable: Seq<char>,
    target: Seq<char>,
) -> Result<Seq<Seq<char>>, Seq<char>> {
    match viewer {
        Ok(words) => if found {
            Ok(popup_args(executable, target))
        } else {
            Err(not_found(words[0]))
        },
        Err(message) => Err(message),
    }
}

/// The command of tmux that shows a patch in a popup, from the option that names
/// the viewer.
pub fn open_popup(config: Option<&str>, found: bool, executable: &str, target: &str) -> (args:
    Result<Vec<String>, String>)
    ensures
        told(args) == popup_told(viewer_set(text::opt_ref(config)), found, executable@, target@),
{
    let viewer = configured_viewer(config);
    proof {
        if viewer is Ok {
            assert(text::texts(viewer->Ok_0@).len() == viewer->Ok_0@.len());
        }
    }
    popup_for_viewer(viewer, found, executable, target)
}

// What is viewed.

/// The word that stands for a kind in a target.
pub open spec fn target_word(kind: VcsKind) -> Seq<char> {
    scan::lower_of(git::kind_label(kind))
}

/// The word that stands for a kind in a target.
pub fn target_kind(kind: VcsKind) -> (word: String)
    ensures
        word@ == target_word(kind),
{
    lower(kind.label())
}

/// The kind that a word of a target stands for.
pub fn kind_of_target(word: &str) -> (kind: Option<VcsKind>)
    ensures
        kind == if word@ == "git"@ {
            Some(VcsKind::Git)
        } else if word@ == "arc"@ {
            Some(VcsKind::Arc)
        } else {
            None
        },
{
    if same(word, "git") {
        Some(VcsKind::Git)
    } else if same(word, "arc") {
        Some(VcsKind::Arc)
    } else {
        None
    }
}

/// A target names the kind it was made for.
pub proof fn target_word_stands_for_its_kind(kind: VcsKind)
    ensures
        target_word(kind) == match kind {
            VcsKind::Git => "git"@,
            VcsKind::Arc => "arc"@,
        },
        "git"@ != "arc"@,
{
    reveal_strlit("Git");
    reveal_strlit("Arc");
    reveal_strlit("git");
    reveal_strlit("arc");
    assert("git"@[0] == 'g' && "arc"@[0] == 'a');
    match kind {
        VcsKind::Git => {
            assert(target_word(kind) =~= "git"@);
        },
        VcsKind::Arc => {
            assert(target_word(kind) =~= "arc"@);
        },
    }
}

/// What became of showing a patch.
#[derive(Debug)]
pub enum ViewOutcome {
    /// No target was given.
    NoTarget,
    /// The target is of no known kind.
    InvalidTarget,
    /// The viewer is not set, with what is wrong.
    NoViewer(String),
    /// There is no patch, with what is wrong.
    NoPatch(String),
    /// The viewer did not start, with what is wrong.
    NotStarted(String),
    /// The viewer did not take the patch.
    NotTaken,
    /// The viewer has ended, with its code where it has one.
    Ended(Option<i32>),
    /// The viewer cannot be waited for.
    Lost,
}

/// The code with which the command that shows a patch ends, and what it says.
pub open spec fn view_end(outcome: ViewOutcome) -> (int, Option<Seq<char>>) {
    match outcome {
        ViewOutcome::NoTarget => (2, Some("No diff target selected"@)),
        ViewOutcome::InvalidTarget => (2, Some("Invalid diff target"@)),
        ViewOutcome::NoViewer(error) => (2, Some(error@)),
        ViewOutcome::NoPatch(error) => (2, Some("Cannot create patch: "@ + error@)),
        ViewOutcome::NotStarted(error) => (127, Some("Cannot launch diff viewer: "@ + error@)),
        ViewOutcome::NotTaken => (1, None),
        ViewOutcome::Ended(code) => (
            match code {
                Some(value) => value as int,
                None => 1,
            },
            None,
        ),
        ViewOutcome::Lost => (1, None),
    }
}

/// The code with which the command that shows a patch ends, and what it says.
pub fn cmd_view_patch(outcome: ViewOutcome) -> (end: (i32, Option<String>))
    ensures
        (end.0 as int, text::opt(end.1)) == view_end(outcome),
{
    match outcome {
        ViewOutcome::NoTarget => (2, Some(owned("No diff target selected"))),
        ViewOutcome::InvalidTarget => (2, Some(owned("Invalid diff target"))),
        ViewOutcome::NoViewer(error) => (2, Some(error)),
        ViewOutcome::NoPatch(error) => (2, Some(concat2("Cannot create patch: ", error.as_str()))),
        ViewOutcome::NotStarted(error) => (
            127,
            Some(concat2("Cannot launch diff viewer: ", error.as_str())),
        ),
        ViewOutcome::NotTaken => (1, None),
        ViewOutcome::Ended(code) => match code {
            Some(value) => (value, None),
            None => (1, None),
        },
        ViewOutcome::Lost => (1, None),
    }
}

/// A list of texts names the viewer and its arguments, each as it is written; the first
/// must be there and not be empty.
pub proof fn a_list_of_words_names_the_viewer(items: Vec<Json>, words: Seq<String>)
    requires
        words.len() == items@.len(),
        forall|i: int|
            0 <= i < words.len() ==> (#[trigger] items@[i]) == Json::Text(words[i]),
    ensures
        words_in(Some(Json::List(items))) == Some(text::texts(words)),
        words.len() > 0 && words[0]@.len() > 0 ==> viewer_in(Some(Json::List(items))) == Ok::<
            Seq<Seq<char>>,
            Seq<char>,
        >(text::texts(words)),
        words.len() == 0 || words[0]@.len() == 0 ==> viewer_in(Some(Json::List(items))) is Err,
        viewer_in(None) is Err,
        viewer_set(None) is Err,
{
    texts_are_read(items@, words);
}

proof fn texts_are_read(items: Seq<Json>, words: Seq<String>)
    requires
        words.len() == items.len(),
        forall|i: int| 0 <= i < words.len() ==> (#[trigger] items[i]) == Json::Text(words[i]),
    ensures
        all_texts(items) == Some(text::texts(words)),
    decreases items.len(),
{
    if items.len() > 0 {
        let rest = items.drop_last();
        let fewer = words.drop_last();
        assert forall|i: int| 0 <= i < fewer.len() implies (#[trigger] rest[i]) == Json::Text(
            fewer[i],
        ) by {
            assert(items[i] == Json::Text(words[i]));
        }
        texts_are_read(rest, fewer);
        assert(items[items.len() - 1] == Json::Text(words[words.len() - 1]));
        assert(text::texts(words) =~= text::texts(fewer).push(words.last()@));
    } else {
        assert(text::texts(words) =~= Seq::<Seq<char>>::empty());
    }
}

/// A viewer that ends by itself decides the exit code; what goes wrong before it can end is
/// never a success.
pub proof fn failures_are_no_success(outcome: ViewOutcome, code: i32)
    ensures
        view_end(ViewOutcome::Ended(Some(code))) == (code as int, None::<Seq<char>>),
        outcome !is Ended ==> view_end(outcome).0 != 0,
        outcome == ViewOutcome::Ended(None) ==> view_end(outcome).0 != 0,
{
}

} // verus!
