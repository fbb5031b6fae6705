//! The command line that starts a saved window again.

use vstd::prelude::*;
use vstd::string::StringExecFns;

use crate::models::WindowEntry;
use crate::text::{self, after_last_of, holds_char, join_of, replace_char_in, str_eq, words_of};

verus! {

broadcast use vstd::string::group_string_axioms;

// ---------------------------------------------------------------------------
// Models
// ---------------------------------------------------------------------------

/// A flag that makes a program hand its work to an instance that runs already,
/// so that the new process would not be independent.
pub open spec fn is_single_instance_flag(word: Seq<char>) -> bool {
    word == "--gtk-single-instance=true"@ || word == "--single-instance"@
}

/// The words of `cmd` that are no single-instance flags, one space apart.
pub open spec fn stripped(cmd: Seq<char>) -> Seq<char> {
    text::join(
        text::words(cmd).filter(|w: Seq<char>| !is_single_instance_flag(w)),
        " "@,
    )
}

/// The flag by which the terminal `bin` takes its working directory, if `bin`
/// is a known terminal.
pub open spec fn terminal_flag(bin: Seq<char>) -> Option<Seq<char>> {
    if bin == "kitty"@ {
        Some("--directory="@)
    } else if bin == "wezterm"@ {
        Some("--cwd="@)
    } else if bin == "ghostty"@ || bin == "alacritty"@ || bin == "foot"@ || bin == "tilix"@ || bin
        == "terminator"@ {
        Some("--working-directory="@)
    } else {
        None
    }
}

/// The working-directory flag of the program that `cmd` starts.
pub open spec fn cwd_flag(cmd: Seq<char>) -> Option<Seq<char>> {
    let w = text::words(cmd);
    if w.len() == 0 {
        None
    } else {
        terminal_flag(text::after_last(w[0], '/'))
    }
}

/// `s` as one word of a POSIX shell.
pub open spec fn shell_escaped(s: Seq<char>) -> Seq<char> {
    "'"@ + text::replace_char(s, '\'', "'\\''"@) + "'"@
}

/// The launch command of a window with its profile flags.
pub open spec fn profiled(w: WindowEntry) -> Seq<char> {
    match w.profile {
        Some(profile) => w.launch_cmd@ + " "@ + profile@,
        None => w.launch_cmd@,
    }
}

/// A character that stands for itself in a shell, without quotes.
pub open spec fn is_plain(c: char) -> bool {
    ||| 'a' <= c <= 'z'
    ||| 'A' <= c <= 'Z'
    ||| '0' <= c <= '9'
    ||| c == '/'
    ||| c == '.'
    ||| c == '_'
    ||| c == '-'
    ||| c == '+'
    ||| c == ':'
    ||| c == '@'
    ||| c == '%'
    ||| c == ','
    ||| c == '='
}

/// A text that is one word of a shell as it stands.
pub open spec fn shell_plain(s: Seq<char>) -> bool {
    s.len() > 0 && forall|i: int| 0 <= i < s.len() ==> is_plain(#[trigger] s[i])
}

/// Whether the script that runs `cmd` in the directory `cwd` can stand between
/// single quotes, but for the directory, which needs none.
pub open spec fn needs_no_escape(cwd: Seq<char>, cmd: Seq<char>) -> bool {
    shell_plain(cwd) && !cmd.contains('\'')
}

/// The word for the directory `cwd` in the script that runs `cmd` there.
pub open spec fn directory_word(cwd: Seq<char>, cmd: Seq<char>) -> Seq<char> {
    if needs_no_escape(cwd, cmd) {
        cwd
    } else {
        shell_escaped(cwd)
    }
}

/// The script that runs `cmd` in the directory `cwd`.
pub open spec fn directory_script(cwd: Seq<char>, cmd: Seq<char>) -> Seq<char> {
    "cd "@ + directory_word(cwd, cmd) + " && exec "@ + cmd
}

/// The command that runs `cmd` in the directory `cwd`, by a shell.
pub open spec fn in_directory(cwd: Seq<char>, cmd: Seq<char>) -> Seq<char> {
    if needs_no_escape(cwd, cmd) {
        "sh -c 'cd "@ + shell_escaped(cwd) + " && exec "@ + cmd + "'"@
    } else {
        "sh -c "@ + shell_escaped(directory_script(cwd, cmd))
    }
}

/// The command that runs `cmd` in the directory `cwd`, if one is given. A known
/// terminal takes it as a flag, and loses its single-instance flags.
pub open spec fn launched_in(cmd: Seq<char>, cwd: Option<Seq<char>>) -> Seq<char> {
    match cwd {
        None => cmd,
        Some(dir) => match cwd_flag(cmd) {
            Some(flag) => stripped(cmd) + " "@ + flag + dir,
            None => in_directory(dir, cmd),
        },
    }
}

/// The whole command that starts a window again.
pub open spec fn launch_text(w: WindowEntry) -> Seq<char> {
    launched_in(profiled(w), text::opt_view(w.cwd))
}

/// The whole command that starts a window again as a process of its own: without
/// single-instance flags, whatever the program.
pub open spec fn independent_text(w: WindowEntry) -> Seq<char> {
    launched_in(stripped(profiled(w)), text::opt_view(w.cwd))
}

// ---------------------------------------------------------------------------
// Functions
// ---------------------------------------------------------------------------

/// `cmd` without the flags that force single-instance behavior.
pub fn strip_single_instance_flags(cmd: &str) -> (r: String)
    ensures
        r@ == stripped(cmd@),
{
    let ghost keep = |w: Seq<char>| !is_single_instance_flag(w);
    let all = words_of(cmd);
    let mut kept: Vec<String> = Vec::new();
    let mut i: usize = 0;
    assert(text::views(all@).take(0).filter(keep) =~= Seq::<Seq<char>>::empty()) by {
        reveal(Seq::filter);
    }
    assert(text::views(kept@) =~= Seq::<Seq<char>>::empty());
    while i < all.len()
        invariant
            i <= all@.len(),
            keep == (|w: Seq<char>| !is_single_instance_flag(w)),
            text::views(kept@) == text::views(all@).take(i as int).filter(keep),
        decreases all@.len() - i,
    {
        let ghost before = text::views(kept@);
        let word = all[i].as_str();
        assert(text::views(all@).take(i + 1).drop_last() =~= text::views(all@).take(i as int));
        assert(text::views(all@).take(i + 1).last() == word@);
        if !(str_eq(word, "--gtk-single-instance=true") || str_eq(word, "--single-instance")) {
            kept.push(word.to_owned());
            assert(text::views(kept@) =~= before.push(word@));
        }
        assert(text::views(kept@) == text::views(all@).take(i + 1).filter(keep)) by {
            reveal(Seq::filter);
        }
        i += 1;
    }
    assert(text::views(all@).take(i as int) =~= text::views(all@));
    join_of(&kept, " ")
}

/// The flag of a known terminal that sets its working directory, for the
/// program that `launch_cmd` starts.
pub fn terminal_cwd_flag(launch_cmd: &str) -> (r: Option<&'static str>)
    ensures
        r matches Some(flag) ==> cwd_flag(launch_cmd@) == Some(flag@),
        r is None ==> cwd_flag(launch_cmd@) is None,
{
    let w = words_of(launch_cmd);
    assert(text::views(w@).len() == w@.len());
    if w.len() == 0 {
        return None;
    }
    assert(text::views(w@)[0] == w@[0]@);
    let bin = after_last_of(w[0].as_str(), '/');
    if str_eq(bin, "kitty") {
        Some("--directory=")
    } else if str_eq(bin, "wezterm") {
        Some("--cwd=")
    } else if str_eq(bin, "ghostty") || str_eq(bin, "alacritty") || str_eq(bin, "foot") || str_eq(
        bin,
        "tilix",
    ) || str_eq(bin, "terminator") {
        Some("--working-directory=")
    } else {
        None
    }
}

/// `s` between single quotes, for a POSIX shell.
pub fn shell_escape(s: &str) -> (r: String)
    ensures
        r@ == shell_escaped(s@),
{
    let mut r = "'".to_owned();
    r.append(replace_char_in(s, '\'', "'\\''").as_str());
    r.append("'");
    r
}

/// Whether `s` is one word of a shell as it stands.
fn is_shell_plain(s: &str) -> (r: bool)
    ensures
        r == shell_plain(s@),
{
    let chars = text::chars_of(s);
    let mut i: usize = 0;
    while i < chars.len()
        invariant
            chars@ == s@,
            i <= chars@.len(),
            forall|j: int| 0 <= j < i ==> is_plain(#[trigger] s@[j]),
        decreases chars@.len() - i,
    {
        let c = chars[i];
        let plain: bool = ('a' <= c && c <= 'z') || ('A' <= c && c <= 'Z') || ('0' <= c && c <= '9')
            || c == '/' || c == '.' || c == '_' || c == '-' || c == '+' || c == ':' || c == '@' || c
            == '%' || c == ',' || c == '=';
        assert(plain == is_plain(s@[i as int]));
        if !plain {
            return false;
        }
        i += 1;
    }
    chars.len() > 0
}

/// The command that runs `cmd` in the directory `cwd`, by a shell.
fn run_in_directory(cwd: &str, cmd: &str) -> (r: String)
    ensures
        r@ == in_directory(cwd@, cmd@),
{
    if is_shell_plain(cwd) && !holds_char(cmd, '\'') {
        let mut r = "sh -c 'cd ".to_owned();
        r.append(shell_escape(cwd).as_str());
        r.append(" && exec ");
        r.append(cmd);
        r.append("'");
        r
    } else {
        let mut script = "cd ".to_owned();
        script.append(shell_escape(cwd).as_str());
        script.append(" && exec ");
        script.append(cmd);
        let mut r = "sh -c ".to_owned();
        r.append(shell_escape(script.as_str()).as_str());
        r
    }
}

/// The launch command of a window with its profile flags.
fn profiled_cmd(window: &WindowEntry) -> (r: String)
    ensures
        r@ == profiled(*window),
{
    let mut cmd = window.launch_cmd.clone();
    if let Some(profile) = &window.profile {
        cmd.append(" ");
        cmd.append(profile.as_str());
    }
    cmd
}

/// The command that runs `cmd` in the directory `cwd`, if one is given.
fn launch_in(cmd: String, cwd: &Option<String>) -> (r: String)
    ensures
        r@ == launched_in(cmd@, text::opt_view(*cwd)),
{
    match cwd {
        None => cmd,
        Some(dir) => match terminal_cwd_flag(cmd.as_str()) {
            Some(flag) => {
                let mut r = strip_single_instance_flags(cmd.as_str());
                r.append(" ");
                r.append(flag);
                r.append(dir.as_str());
                r
            },
            None => run_in_directory(dir.as_str(), cmd.as_str()),
        },
    }
}

/// The command that starts `window` again, with its browser profile and its
/// working directory.
///
/// Profile flags follow the launch command. A known terminal gets its own
/// working-directory flag, and loses the flags that would make it join an
/// instance that runs already; any other program is started by a shell that
/// has changed to the directory.
pub fn build_launch_cmd(window: &WindowEntry) -> (r: String)
    ensures
        r@ == launch_text(*window),
{
    launch_in(profiled_cmd(window), &window.cwd)
}

/// The command that starts `window` again as a process of its own. The flags that
/// would make it join an instance that runs already are gone, whatever the
/// program, and the directory stays as it is.
pub fn build_independent_cmd(window: &WindowEntry) -> (r: String)
    ensures
        r@ == independent_text(*window),
{
    let cmd = profiled_cmd(window);
    launch_in(strip_single_instance_flags(cmd.as_str()), &window.cwd)
}

// ---------------------------------------------------------------------------
// Laws
// ---------------------------------------------------------------------------

/// A selection among words holds words that were selected, and no others.
proof fn filter_members(all: Seq<Seq<char>>, keep: spec_fn(Seq<char>) -> bool)
    ensures
        forall|i: int|
            0 <= i < all.filter(keep).len() ==> keep(#[trigger] all.filter(keep)[i])
                && all.contains(all.filter(keep)[i]),
    decreases all.len(),
{
    reveal(Seq::filter);
    if all.len() > 0 {
        let head = all.drop_last();
        filter_members(head, keep);
        assert(all[all.len() - 1] == all.last());
        assert forall|i: int| 0 <= i < all.filter(keep).len() implies keep(
            #[trigger] all.filter(keep)[i],
        ) && all.contains(all.filter(keep)[i]) by {
            if i < head.filter(keep).len() {
                let k = choose|k: int| 0 <= k < head.len() && head[k] == head.filter(keep)[i];
                assert(all[k] == all.filter(keep)[i]);
            }
        }
    }
}

/// Stripping leaves the other words of a command as they are, in order, and no
/// single-instance flag among them.
pub proof fn stripping_keeps_other_words(cmd: Seq<char>)
    ensures
        text::words(stripped(cmd)) == text::words(cmd).filter(
            |w: Seq<char>| !is_single_instance_flag(w),
        ),
        forall|i: int|
            0 <= i < text::words(stripped(cmd)).len() ==> !is_single_instance_flag(
                #[trigger] text::words(stripped(cmd))[i],
            ),
{
    let keep = |w: Seq<char>| !is_single_instance_flag(w);
    let kept = text::words(cmd).filter(keep);
    text::words_are_words(cmd);
    filter_members(text::words(cmd), keep);
    assert forall|i: int| 0 <= i < kept.len() implies text::is_word(#[trigger] kept[i]) by {
        let k = choose|k: int| 0 <= k < text::words(cmd).len() && text::words(cmd)[k] == kept[i];
        assert(text::is_word(text::words(cmd)[k]));
    }
    text::words_of_joined_words(kept);
    assert forall|i: int| 0 <= i < kept.len() implies !is_single_instance_flag(
        #[trigger] kept[i],
    ) by {
        assert(keep(kept[i]));
    }
}

/// Stripping a command twice is stripping it once.
pub proof fn stripping_twice(cmd: Seq<char>)
    ensures
        stripped(stripped(cmd)) == stripped(cmd),
{
    let keep = |w: Seq<char>| !is_single_instance_flag(w);
    stripping_keeps_other_words(cmd);
    let kept = text::words(stripped(cmd));
    assert forall|i: int| 0 <= i < kept.len() implies keep(#[trigger] kept[i]) by {}
    text::filter_all(kept, keep);
    assert(kept.filter(keep) == kept);
}

/// The word that `word` becomes with `s` behind it.
pub open spec fn grown(word: Option<Seq<char>>, s: Seq<char>) -> Option<Seq<char>> {
    match word {
        Some(w) => Some(w + s),
        None => Some(s),
    }
}

/// The words that a shell reads in `s`, behind the part `word` of a word if there
/// is one; `quoted` says that `s` begins between single quotes. Between quotes
/// every character stands for itself. Outside them a backslash makes the next
/// character stand for itself, a space ends a word, and the characters that need
/// no quotes stand for themselves. There is no reading if a quote is left open or
/// if any other character stands outside quotes.
pub open spec fn words_read(s: Seq<char>, word: Option<Seq<char>>, quoted: bool) -> Option<
    Seq<Seq<char>>,
>
    decreases s.len(),
{
    if s.len() == 0 {
        if quoted {
            None
        } else {
            Some(
                match word {
                    Some(w) => seq![w],
                    None => Seq::empty(),
                },
            )
        }
    } else if s[0] == '\'' {
        words_read(s.drop_first(), grown(word, Seq::empty()), !quoted)
    } else if quoted || is_plain(s[0]) {
        words_read(s.drop_first(), grown(word, seq![s[0]]), quoted)
    } else if s[0] == '\\' && s.len() > 1 {
        words_read(s.skip(2), grown(word, seq![s[1]]), false)
    } else if s[0] == ' ' {
        match (word, words_read(s.drop_first(), None, false)) {
            (Some(w), Some(rest)) => Some(seq![w] + rest),
            (None, Some(rest)) => Some(rest),
            (_, None) => None,
        }
    } else {
        None
    }
}

/// The words that a shell reads in `s`.
pub open spec fn shell_words(s: Seq<char>) -> Option<Seq<Seq<char>>> {
    words_read(s, None, false)
}

/// What holds no quote reads as itself between quotes.
proof fn quoted_reads(s: Seq<char>, tail: Seq<char>, w: Seq<char>)
    requires
        !s.contains('\''),
    ensures
        words_read(s + tail, Some(w), true) == words_read(tail, Some(w + s), true),
    decreases s.len(),
{
    if s.len() == 0 {
        assert(s + tail =~= tail);
        assert(w + s =~= w);
    } else {
        let rest = s.drop_first();
        assert(s.contains(s[0]));
        assert(!rest.contains('\'')) by {
            if rest.contains('\'') {
                let i = choose|i: int| 0 <= i < rest.len() && rest[i] == '\'';
                assert(s[i + 1] == '\'');
            }
        }
        assert((s + tail).drop_first() =~= rest + tail);
        quoted_reads(rest, tail, w + seq![s[0]]);
        assert(w + seq![s[0]] + rest =~= w + s);
    }
}

/// Plain characters read as themselves outside quotes.
proof fn plain_reads(s: Seq<char>, tail: Seq<char>, word: Option<Seq<char>>)
    requires
        shell_plain(s),
    ensures
        words_read(s + tail, word, false) == words_read(tail, grown(word, s), false),
    decreases s.len(),
{
    let one = seq![s[0]];
    let rest = s.drop_first();
    assert(is_plain(s[0]));
    assert((s + tail).drop_first() =~= rest + tail);
    if rest.len() == 0 {
        assert(rest + tail =~= tail);
        assert(one =~= s);
    } else {
        assert forall|i: int| 0 <= i < rest.len() implies is_plain(#[trigger] rest[i]) by {
            assert(rest[i] == s[i + 1]);
        }
        plain_reads(rest, tail, grown(word, one));
        assert(one + rest =~= s);
        if let Some(w) = word {
            assert(w + one + rest =~= w + s);
        }
    }
}

/// What is escaped reads as itself, up to `tail`, between quotes.
proof fn escaped_reads(s: Seq<char>, tail: Seq<char>, w: Seq<char>)
    ensures
        words_read(text::replace_char(s, '\'', "'\\''"@) + tail, Some(w), true) == words_read(
            tail,
            Some(w + s),
            true,
        ),
    decreases s.len(),
{
    let with = "'\\''"@;
    reveal_strlit("'\\''");
    if s.len() == 0 {
        assert(text::replace_char(s, '\'', with) + tail =~= tail);
        assert(w + s =~= w);
    } else {
        let head = s.drop_last();
        let c = s.last();
        let part = if c == '\'' {
            with
        } else {
            seq![c]
        };
        let t = part + tail;
        let before = w + head;
        escaped_reads(head, t, w);
        assert(text::replace_char(s, '\'', with) + tail =~= text::replace_char(head, '\'', with) + t);
        assert(before + seq![c] =~= w + s);
        if c == '\'' {
            let t1 = t.drop_first();
            let t2 = t1.skip(2);
            assert(t1[0] == '\\' && t1[1] == '\'' && t2[0] == '\'');
            assert(t2.drop_first() =~= tail);
            assert(before + Seq::<char>::empty() =~= before);
            assert(w + s + Seq::<char>::empty() =~= w + s);
            assert(words_read(t, Some(before), true) == words_read(t1, Some(before), false));
            assert(words_read(t1, Some(before), false) == words_read(t2, Some(w + s), false));
            assert(words_read(t2, Some(w + s), false) == words_read(tail, Some(w + s), true));
        } else {
            assert(t.drop_first() =~= tail);
            assert(t[0] == c);
        }
    }
}

/// A closing quote at the end completes the word.
proof fn quote_closes(w: Seq<char>)
    ensures
        words_read("'"@, Some(w), true) == Some(seq![w]),
{
    reveal_strlit("'");
    let close = "'"@;
    assert(close.drop_first() =~= Seq::<char>::empty());
    assert(w + Seq::<char>::empty() =~= w);
    assert(words_read(close.drop_first(), Some(w), false) == Some(seq![w]));
}

/// A shell reads an escaped text as one word, the text itself, whatever is in it.
pub proof fn shell_reads_escaped(s: Seq<char>)
    ensures
        shell_words(shell_escaped(s)) == Some(seq![s]),
{
    reveal_strlit("'");
    let none = Seq::<char>::empty();
    let body = text::replace_char(s, '\'', "'\\''"@);
    let all = shell_escaped(s);
    assert(all[0] == '\'');
    assert(all.drop_first() =~= body + "'"@);
    escaped_reads(s, "'"@, none);
    assert(none + s =~= s);
    quote_closes(s);
}

/// What holds no quote is escaped by quotes around it alone.
proof fn nothing_replaced(s: Seq<char>, c: char, with: Seq<char>)
    requires
        !s.contains(c),
    ensures
        text::replace_char(s, c, with) == s,
    decreases s.len(),
{
    if s.len() > 0 {
        let head = s.drop_last();
        assert(s[s.len() - 1] == s.last());
        assert(!head.contains(c)) by {
            if head.contains(c) {
                let i = choose|i: int| 0 <= i < head.len() && head[i] == c;
                assert(s[i] == c);
            }
        }
        nothing_replaced(head, c, with);
        assert(head + seq![s.last()] =~= s);
    } else {
        assert(text::replace_char(s, c, with) =~= s);
    }
}

/// The first two words of `sh -c` are read before whatever follows.
proof fn shell_call_reads(word: Seq<char>, value: Seq<char>)
    requires
        shell_words(word) == Some(seq![value]),
    ensures
        shell_words("sh -c "@ + word) == Some(seq!["sh"@, "-c"@, value]),
{
    reveal_strlit("sh -c ");
    reveal_strlit("sh");
    reveal_strlit("-c");
    let blank = seq![' '];
    let rest = "-c"@ + (blank + word);
    assert("sh -c "@ + word =~= "sh"@ + (blank + rest));
    assert((blank + word).drop_first() =~= word);
    assert((blank + rest).drop_first() =~= rest);
    plain_reads("sh"@, blank + rest, None);
    plain_reads("-c"@, blank + word, None);
    assert(seq!["-c"@] + seq![value] =~= seq!["-c"@, value]);
    assert(seq!["sh"@] + seq!["-c"@, value] =~= seq!["sh"@, "-c"@, value]);
}

/// The short form of the command reads as one with three words.
proof fn short_form_reads(cwd: Seq<char>, cmd: Seq<char>)
    requires
        needs_no_escape(cwd, cmd),
    ensures
        shell_words(in_directory(cwd, cmd)) == Some(
            seq!["sh"@, "-c"@, directory_script(cwd, cmd)],
        ),
{
    reveal_strlit("sh -c 'cd ");
    reveal_strlit("sh -c ");
    reveal_strlit("'");
    reveal_strlit("cd ");
    reveal_strlit(" && exec ");
    let none = Seq::<char>::empty();
    let quote = "'"@;
    let run = " && exec "@ + cmd;
    assert(!cwd.contains('\'')) by {
        if cwd.contains('\'') {
            let i = choose|i: int| 0 <= i < cwd.len() && cwd[i] == '\'';
            assert(is_plain(cwd[i]));
        }
    }
    nothing_replaced(cwd, '\'', "'\\''"@);
    let d = run + quote;
    let c = quote + d;
    let b = cwd + c;
    let a = quote + b;
    let word = quote + ("cd "@ + a);
    assert(in_directory(cwd, cmd) =~= "sh -c "@ + word);
    assert(word.drop_first() =~= "cd "@ + a);
    assert(none + "cd "@ =~= "cd "@);
    assert(!"cd "@.contains('\''));
    quoted_reads("cd "@, a, none);
    assert(a.drop_first() =~= b);
    assert("cd "@ + none =~= "cd "@);
    plain_reads(cwd, c, Some("cd "@));
    let moved = "cd "@ + cwd;
    assert(c.drop_first() =~= d);
    assert(moved + none =~= moved);
    assert(!run.contains('\'')) by {
        if run.contains('\'') {
            let i = choose|i: int| 0 <= i < run.len() && run[i] == '\'';
            if i >= 9 {
                assert(cmd[i - 9] == '\'');
            }
        }
    }
    quoted_reads(run, quote, moved);
    assert(moved + run =~= directory_script(cwd, cmd));
    quote_closes(directory_script(cwd, cmd));
    assert(shell_words(word) == Some(seq![directory_script(cwd, cmd)]));
    shell_call_reads(word, directory_script(cwd, cmd));
}

/// A program that is to run in a directory is handed to a shell as a script that
/// goes to that directory and then becomes the program: for every directory and
/// every command the shell reads three words, the last of which is
/// `cd <word> && exec <cmd>`, and in that script the word is the directory.
pub proof fn shell_runs_in_directory(cwd: Seq<char>, cmd: Seq<char>)
    ensures
        shell_words(in_directory(cwd, cmd)) == Some(
            seq!["sh"@, "-c"@, "cd "@ + directory_word(cwd, cmd) + " && exec "@ + cmd],
        ),
        shell_words(directory_word(cwd, cmd)) == Some(seq![cwd]),
{
    let none = Seq::<char>::empty();
    if needs_no_escape(cwd, cmd) {
        short_form_reads(cwd, cmd);
        plain_reads(cwd, none, None);
        assert(cwd + none =~= cwd);
    } else {
        let script = directory_script(cwd, cmd);
        shell_reads_escaped(cwd);
        shell_reads_escaped(script);
        shell_call_reads(shell_escaped(script), script);
    }
}

/// A window that starts as a process of its own runs in its directory too: a
/// program that is no known terminal is handed to a shell as a script that goes to
/// the directory and then becomes the program, without single-instance flags.
pub proof fn independent_runs_in_directory(w: WindowEntry)
    requires
        w.cwd is Some,
        cwd_flag(stripped(profiled(w))) is None,
    ensures
        ({
            let cmd = stripped(profiled(w));
            let cwd = w.cwd->0@;
            &&& shell_words(independent_text(w)) == Some(
                seq!["sh"@, "-c"@, "cd "@ + directory_word(cwd, cmd) + " && exec "@ + cmd],
            )
            &&& shell_words(directory_word(cwd, cmd)) == Some(seq![cwd])
            &&& forall|i: int|
                0 <= i < text::words(cmd).len() ==> !is_single_instance_flag(
                    #[trigger] text::words(cmd)[i],
                )
        }),
{
    shell_runs_in_directory(w.cwd->0@, stripped(profiled(w)));
    stripping_keeps_other_words(profiled(w));
}

/// What holds no `c` has all of itself behind its last `c`.
proof fn after_none(s: Seq<char>, c: char)
    requires
        !s.contains(c),
    ensures
        text::after_last(s, c) == s,
    decreases s.len(),
{
    if s.len() > 0 {
        let head = s.drop_last();
        assert(s[s.len() - 1] == s.last());
        assert(!head.contains(c)) by {
            if head.contains(c) {
                let i = choose|i: int| 0 <= i < head.len() && head[i] == c;
                assert(s[i] == c);
            }
        }
        after_none(head, c);
        assert(head.push(s.last()) =~= s);
    } else {
        assert(text::after_last(s, c) =~= s);
    }
}

/// If the first word is selected, it is the first of the selection.
proof fn filter_first(all: Seq<Seq<char>>, keep: spec_fn(Seq<char>) -> bool)
    requires
        all.len() > 0,
        keep(all[0]),
    ensures
        all.filter(keep).len() > 0,
        all.filter(keep)[0] == all[0],
    decreases all.len(),
{
    reveal(Seq::filter);
    let head = all.drop_last();
    if head.len() > 0 {
        filter_first(head, keep);
    } else {
        assert(all.last() == all[0]);
        assert(head.filter(keep) =~= Seq::<Seq<char>>::empty());
    }
}

/// A known terminal is still known without its single-instance flags.
proof fn terminal_stays_known(cmd: Seq<char>)
    requires
        cwd_flag(cmd) is Some,
    ensures
        cwd_flag(stripped(cmd)) == cwd_flag(cmd),
        text::words(stripped(cmd)).len() > 0,
{
    let keep = |w: Seq<char>| !is_single_instance_flag(w);
    let first = text::words(cmd)[0];
    reveal_strlit("--gtk-single-instance=true");
    reveal_strlit("--single-instance");
    reveal_strlit("kitty");
    reveal_strlit("wezterm");
    reveal_strlit("ghostty");
    reveal_strlit("alacritty");
    reveal_strlit("foot");
    reveal_strlit("tilix");
    reveal_strlit("terminator");
    if is_single_instance_flag(first) {
        assert(!first.contains('/'));
        after_none(first, '/');
        assert(first[0] == '-');
    }
    filter_first(text::words(cmd), keep);
    stripping_keeps_other_words(cmd);
}

/// A terminal's directory flag with a directory is one word, and none of the
/// single-instance flags.
proof fn directory_flag_is_word(cmd: Seq<char>, cwd: Seq<char>)
    requires
        cwd_flag(cmd) is Some,
        text::space_free(cwd),
    ensures
        text::is_word(cwd_flag(cmd)->0 + cwd),
        !is_single_instance_flag(cwd_flag(cmd)->0 + cwd),
{
    reveal_strlit("--directory=");
    reveal_strlit("--cwd=");
    reveal_strlit("--working-directory=");
    reveal_strlit("--gtk-single-instance=true");
    reveal_strlit("--single-instance");
    let flag = cwd_flag(cmd)->0;
    let last = flag + cwd;
    assert(text::space_free("--directory="@));
    assert(text::space_free("--cwd="@));
    assert(text::space_free("--working-directory="@));
    assert(last[2] == flag[2]);
    assert forall|i: int| 0 <= i < last.len() implies !text::is_space(#[trigger] last[i]) by {
        if i < flag.len() {
            assert(last[i] == flag[i]);
        } else {
            assert(last[i] == cwd[i - flag.len()]);
        }
    }
}

/// A window without a saved directory, and a known terminal whose directory holds
/// no white space, start as processes of their own by the launch command without
/// its single-instance flags.
pub proof fn independent_is_stripped(w: WindowEntry)
    requires
        w.cwd matches Some(cwd) ==> text::space_free(cwd@) && cwd_flag(profiled(w)) is Some,
    ensures
        independent_text(w) == stripped(launch_text(w)),
{
    let cmd = profiled(w);
    stripping_twice(cmd);
    if let Some(cwd) = w.cwd {
        let flag = cwd_flag(cmd)->0;
        terminal_stays_known(cmd);
        let last = flag + cwd@;
        let kept = text::words(stripped(cmd));
        let keep = |w: Seq<char>| !is_single_instance_flag(w);
        directory_flag_is_word(cmd, cwd@);
        stripping_keeps_other_words(cmd);
        text::words_are_words(stripped(cmd));
        text::words_add_space(stripped(cmd), ' ');
        reveal_strlit(" ");
        let s = stripped(cmd).push(' ');
        text::words_add_word(s, last);
        assert(launch_text(w) =~= s + last);
        assert(text::words(launch_text(w)) == kept.push(last));
        assert forall|i: int| 0 <= i < kept.push(last).len() implies keep(
            #[trigger] kept.push(last)[i],
        ) by {
            if i < kept.len() {
                assert(kept.push(last)[i] == kept[i]);
            }
        }
        text::filter_all(kept.push(last), keep);
        assert(stripped(launch_text(w)) == text::join(kept.push(last), " "@));
        assert(kept.len() > 0);
        assert(kept.push(last).drop_last() =~= kept);
        assert(text::join(kept, " "@) == stripped(stripped(cmd))) by {
            text::filter_all(kept, keep);
        }
        assert(text::join(kept.push(last), " "@) =~= stripped(cmd) + " "@ + flag + cwd@);
    }
}

/// The two flags that force single-instance behavior are taken out of a command
/// wherever they stand, and nothing else; the words that are left stand one blank
/// apart.
pub proof fn only_flags_taken_out(cmd: &str, r: String)
    requires
        call_ensures(strip_single_instance_flags, (cmd,), r),
    ensures
        text::words(r@) == text::words(cmd@).filter(
            |w: Seq<char>| w != "--gtk-single-instance=true"@ && w != "--single-instance"@,
        ),
        r@ == text::join(text::words(r@), " "@),
{
    stripping_keeps_other_words(cmd@);
    let keep = |w: Seq<char>| !is_single_instance_flag(w);
    let other = |w: Seq<char>| w != "--gtk-single-instance=true"@ && w != "--single-instance"@;
    assert forall|w: Seq<char>| #[trigger] keep(w) == other(w) by {}
    same_selection(text::words(cmd@), keep, other);
}

/// Conditions that agree select the same.
proof fn same_selection(
    all: Seq<Seq<char>>,
    a: spec_fn(Seq<char>) -> bool,
    b: spec_fn(Seq<char>) -> bool,
)
    requires
        forall|w: Seq<char>| #[trigger] a(w) == b(w),
    ensures
        all.filter(a) == all.filter(b),
    decreases all.len(),
{
    reveal(Seq::filter);
    if all.len() > 0 {
        same_selection(all.drop_last(), a, b);
        assert(a(all.last()) == b(all.last()));
    }
}

/// A terminal is known by its file name, whatever directory it lies in, and each has
/// its own flag; no other program has one.
pub proof fn terminals_known(
    cmd: &str,
    dir: Seq<char>,
    bin: Seq<char>,
    r: Option<&'static str>,
)
    requires
        text::words(cmd@).len() > 0,
        text::words(cmd@)[0] == dir + bin,
        dir.len() == 0 || dir.last() == '/',
        !bin.contains('/'),
        call_ensures(terminal_cwd_flag, (cmd,), r),
    ensures
        bin == "kitty"@ ==> r is Some && r->0@ == "--directory="@,
        bin == "wezterm"@ ==> r is Some && r->0@ == "--cwd="@,
        bin == "ghostty"@ || bin == "alacritty"@ || bin == "foot"@ || bin == "tilix"@ || bin
            == "terminator"@ ==> r is Some && r->0@ == "--working-directory="@,
        r is Some ==> bin == "kitty"@ || bin == "wezterm"@ || bin == "ghostty"@ || bin
            == "alacritty"@ || bin == "foot"@ || bin == "tilix"@ || bin == "terminator"@,
{
    reveal_strlit("kitty");
    reveal_strlit("wezterm");
    reveal_strlit("ghostty");
    reveal_strlit("alacritty");
    reveal_strlit("foot");
    reveal_strlit("tilix");
    reveal_strlit("terminator");
    let head = if dir.len() == 0 {
        dir
    } else {
        dir.drop_last()
    };
    text::last_is_last(head, '/', bin);
    if dir.len() == 0 {
        assert(dir + bin =~= bin);
    } else {
        assert(head.push('/') =~= dir);
    }
    assert(text::after_last(dir + bin, '/') == bin);
    assert("kitty"@.len() == 5 && "wezterm"@.len() == 7 && "ghostty"@.len() == 7
        && "alacritty"@.len() == 9 && "foot"@.len() == 4 && "tilix"@.len() == 5
        && "terminator"@.len() == 10);
    assert("kitty"@[0] == 'k' && "tilix"@[0] == 't' && "wezterm"@[0] == 'w' && "ghostty"@[0]
        == 'g');
}

/// A command without words starts no terminal.
pub proof fn nothing_is_no_terminal(cmd: &str, r: Option<&'static str>)
    requires
        text::words(cmd@).len() == 0,
        call_ensures(terminal_cwd_flag, (cmd,), r),
    ensures
        r is None,
{
}

/// Only characters are left without quotes that mean nothing to a shell, and those of
/// common file names are.
pub proof fn plain_characters(c: char)
    ensures
        is_plain(c) ==> !text::is_space(c) && !"|&;<>()$`\\\"'*?[]#~!{}^"@.contains(c),
        'a' <= c <= 'z' || 'A' <= c <= 'Z' || '0' <= c <= '9' || c == '/' || c == '.' || c == '-'
            || c == '_' ==> is_plain(c),
{
    reveal_strlit("|&;<>()$`\\\"'*?[]#~!{}^");
    let special = "|&;<>()$`\\\"'*?[]#~!{}^"@;
    if is_plain(c) && special.contains(c) {
        let i = choose|i: int| 0 <= i < special.len() && special[i] == c;
        assert(special.len() == 23);
    }
}

/// A window is launched by its command with its profile behind it, if it has one and
/// no directory.
pub proof fn launched_as_saved(w: WindowEntry, r: String)
    requires
        w.cwd is None,
        call_ensures(build_launch_cmd, (&w,), r),
    ensures
        w.profile is None ==> r@ == w.launch_cmd@,
        w.profile matches Some(profile) ==> r@ == w.launch_cmd@ + " "@ + profile@,
{
}

/// A window that is to run by itself is launched by the same command without the
/// flags that forbid it.
pub proof fn launched_by_itself(w: WindowEntry, cmd: &str, kept: String, r: String)
    requires
        w.cwd is None,
        w.profile is None ==> cmd@ == w.launch_cmd@,
        w.profile matches Some(profile) ==> cmd@ == w.launch_cmd@ + " "@ + profile@,
        call_ensures(strip_single_instance_flags, (cmd,), kept),
        call_ensures(build_independent_cmd, (&w,), r),
    ensures
        r@ == kept@,
{
}

/// A known terminal is told its directory by its own flag, behind its command without
/// the flags that would make it join another instance.
pub proof fn terminal_launched_in(
    w: WindowEntry,
    dir: String,
    cmd: &str,
    kept: String,
    flag: &'static str,
    r: String,
    s: String,
)
    requires
        w.cwd == Some(dir),
        w.profile is None ==> cmd@ == w.launch_cmd@,
        w.profile matches Some(profile) ==> cmd@ == w.launch_cmd@ + " "@ + profile@,
        call_ensures(strip_single_instance_flags, (cmd,), kept),
        call_ensures(terminal_cwd_flag, (cmd,), Some(flag)),
        call_ensures(build_launch_cmd, (&w,), r),
        call_ensures(build_independent_cmd, (&w,), s),
    ensures
        r@ == kept@ + " "@ + flag@ + dir@,
        s@ == kept@ + " "@ + flag@ + dir@,
{
    assert(profiled(w) == cmd@);
    terminal_stays_known(cmd@);
    stripping_twice(cmd@);
}

/// Any other program is handed to a shell that goes to the directory and becomes the
/// program: the shell reads three words, and in the last the directory is one word,
/// whatever is in it.
pub proof fn program_launched_in(w: WindowEntry, dir: String, cmd: &str, r: String)
    requires
        w.cwd == Some(dir),
        w.profile is None ==> cmd@ == w.launch_cmd@,
        w.profile matches Some(profile) ==> cmd@ == w.launch_cmd@ + " "@ + profile@,
        call_ensures(terminal_cwd_flag, (cmd,), None::<&'static str>),
        call_ensures(build_launch_cmd, (&w,), r),
    ensures
        exists|word: Seq<char>|
            #[trigger] shell_words(word) == Some(seq![dir@]) && shell_words(r@) == Some(
                seq!["sh"@, "-c"@, "cd "@ + word + " && exec "@ + cmd@],
            ),
        dir@.len() > 0 && (forall|i: int|
            0 <= i < dir@.len() ==> 'a' <= #[trigger] dir@[i] <= 'z' || 'A' <= dir@[i] <= 'Z'
                || '0' <= dir@[i] <= '9' || dir@[i] == '/' || dir@[i] == '.' || dir@[i] == '-'
                || dir@[i] == '_') && !cmd@.contains('\'') ==> r@ == "sh -c 'cd '"@ + dir@
            + "' && exec "@ + cmd@ + "'"@,
        dir@.len() > 0 && cmd@.contains('\'') ==> exists|script: Seq<char>|
            r@ == "sh -c "@ + #[trigger] shell_escaped(script) && script == "cd "@ + shell_escaped(
                dir@,
            ) + " && exec "@ + cmd@,
{
    assert(profiled(w) == cmd@);
    shell_runs_in_directory(dir@, cmd@);
    let word = directory_word(dir@, cmd@);
    assert(shell_words(word) == Some(seq![dir@]));
    if dir@.len() > 0 && (forall|i: int|
        0 <= i < dir@.len() ==> 'a' <= #[trigger] dir@[i] <= 'z' || 'A' <= dir@[i] <= 'Z' || '0'
            <= dir@[i] <= '9' || dir@[i] == '/' || dir@[i] == '.' || dir@[i] == '-' || dir@[i]
            == '_') && !cmd@.contains('\'') {
        assert(shell_plain(dir@));
        assert(!dir@.contains('\'')) by {
            if dir@.contains('\'') {
                let i = choose|i: int| 0 <= i < dir@.len() && dir@[i] == '\'';
                assert(is_plain(dir@[i]));
            }
        }
        nothing_replaced(dir@, '\'', "'\\''"@);
        reveal_strlit("sh -c 'cd ");
        reveal_strlit("'");
        reveal_strlit(" && exec ");
        reveal_strlit("sh -c 'cd '");
        reveal_strlit("' && exec ");
        assert("sh -c 'cd "@ + "'"@ =~= "sh -c 'cd '"@);
        assert("'"@ + " && exec "@ =~= "' && exec "@);
        assert("sh -c 'cd "@ + ("'"@ + dir@ + "'"@) + " && exec "@ =~= "sh -c 'cd '"@ + dir@
            + "' && exec "@);
    }
    if cmd@.contains('\'') {
        let script = directory_script(dir@, cmd@);
        assert(r@ == "sh -c "@ + shell_escaped(script));
    }
}

/// A program that is to run by itself is handed to a shell in the same way, without
/// the flags that forbid it.
pub proof fn program_launched_by_itself(
    w: WindowEntry,
    dir: String,
    cmd: &str,
    kept: String,
    program: &str,
    r: String,
)
    requires
        w.cwd == Some(dir),
        w.profile is None ==> cmd@ == w.launch_cmd@,
        w.profile matches Some(profile) ==> cmd@ == w.launch_cmd@ + " "@ + profile@,
        call_ensures(strip_single_instance_flags, (cmd,), kept),
        program@ == kept@,
        call_ensures(terminal_cwd_flag, (program,), None::<&'static str>),
        call_ensures(build_independent_cmd, (&w,), r),
    ensures
        exists|word: Seq<char>|
            #[trigger] shell_words(word) == Some(seq![dir@]) && shell_words(r@) == Some(
                seq!["sh"@, "-c"@, "cd "@ + word + " && exec "@ + kept@],
            ),
{
    assert(profiled(w) == cmd@);
    shell_runs_in_directory(dir@, kept@);
    let word = directory_word(dir@, kept@);
    assert(shell_words(word) == Some(seq![dir@]));
}

/// A text between single quotes has its own single quotes written as four characters,
/// and all others as they are.
pub proof fn quotes_escaped(s: &str, r: String)
    requires
        call_ensures(shell_escape, (s,), r),
    ensures
        r@.len() >= 2,
        r@[0] == '\'',
        r@.last() == '\'',
        !s@.contains('\'') ==> r@ == "'"@ + s@ + "'"@,
        shell_words(r@) == Some(seq![s@]),
{
    reveal_strlit("'");
    shell_reads_escaped(s@);
    if !s@.contains('\'') {
        nothing_replaced(s@, '\'', "'\\''"@);
    }
}

/// A single quote in a text closes the quotes, stands behind a backslash, and opens
/// them again.
pub proof fn quote_escaped(s: &str, before: Seq<char>, after: Seq<char>, r: String)
    requires
        s@ == before + "'"@ + after,
        !before.contains('\''),
        !after.contains('\''),
        call_ensures(shell_escape, (s,), r),
    ensures
        r@ == "'"@ + before + "'\\''"@ + after + "'"@,
{
    let with = "'\\''"@;
    reveal_strlit("'");
    let quote = "'"@;
    assert(quote =~= seq!['\'']);
    text::replaced_one_by_one(before, quote, '\'', with);
    text::replaced_one_by_one(before + quote, after, '\'', with);
    nothing_replaced(before, '\'', with);
    nothing_replaced(after, '\'', with);
    assert(r@ == quote + (before + with + after) + quote);
    assert(r@ =~= quote + before + with + after + quote);
}

} // verus!
