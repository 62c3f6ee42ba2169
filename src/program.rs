use crate::text::{is_space, is_whitespace, push_char};
use vstd::prelude::*;

verus! {

/// A launchable program: the name shown to the user and the command line
/// that starts it (the executable first, then its arguments).
#[derive(Clone, Debug)]
pub struct Program {
    pub name: String,
    pub cmd: Vec<String>,
}


/// The words of `s[0..n]`: its longest runs of characters that are not white
/// space, in order.
pub open spec fn words_upto(s: Seq<char>, n: nat) -> Seq<Seq<char>>
    decreases n,
{
    if n == 0 || n > s.len() {
        Seq::empty()
    } else {
        let w = words_upto(s, (n - 1) as nat);
        let c = s[n - 1];
        if is_space(c) {
            w
        } else if n >= 2 && !is_space(s[n - 2]) {
            w.update(w.len() - 1, w.last().push(c))
        } else {
            w.push(seq![c])
        }
    }
}

/// The words of `s`, as `str::split_whitespace` yields them.
pub open spec fn words(s: Seq<char>) -> Seq<Seq<char>> {
    words_upto(s, s.len())
}

/// The contents of a sequence of strings.
pub open spec fn texts(v: Seq<String>) -> Seq<Seq<char>> {
    v.map_values(|x: String| x@)
}

/// The words of `s`.
pub fn split_words(s: &str) -> (r: Vec<String>)
    ensures
        texts(r@) == words(s@),
{
    let len = s.unicode_len();
    let mut done: Vec<String> = Vec::new();
    let mut cur = String::new();
    let mut in_word = false;
    let mut i: usize = 0;
    while i < len
        invariant
            len == s@.len(),
            i <= len,
            in_word == (i > 0 && !is_space(s@[i - 1])),
            !in_word ==> cur@ == Seq::<char>::empty(),
            words_upto(s@, i as nat) == if in_word {
                texts(done@).push(cur@)
            } else {
                texts(done@)
            },
        decreases len - i,
    {
        let c = s.get_char(i);
        if is_whitespace(c) {
            if in_word {
                let finished = cur;
                cur = String::new();
                let ghost prior = done@;
                done.push(finished);
                assert(texts(done@) =~= texts(prior).push(finished@));
            }
            in_word = false;
        } else {
            let ghost before = cur@;
            push_char(&mut cur, c);
            proof {
                if in_word {
                    assert(texts(done@).push(cur@) =~= texts(done@).push(before).update(
                        texts(done@).len() as int,
                        before.push(c),
                    ));
                } else {
                    assert(cur@ =~= seq![c]);
                }
            }
            in_word = true;
        }
        i += 1;
    }
    if in_word {
        let ghost prior = done@;
        done.push(cur);
        assert(texts(done@) =~= texts(prior).push(cur@));
    }
    done
}


/// The keys of a desktop entry's `[Desktop Entry]` section that decide
/// whether and how it is offered as a program.
pub struct DesktopEntry {
    /// `Name`: what the user sees.
    pub name: Option<String>,
    /// `Exec`: the command line.
    pub command: Option<String>,
    /// `TryExec`: an executable that must be installed for the entry to count.
    pub try_exec: Option<String>,
    /// `Terminal`: `true` when the program runs inside a terminal.
    pub terminal: Option<String>,
}

/// Whether the entry asks for a terminal.
pub open spec fn wants_terminal(terminal: Option<String>) -> bool {
    terminal matches Some(t) && t@ == seq!['t', 'r', 'u', 'e']
}

/// The terminal emulator that a program which asks for a terminal is run in.
pub open spec fn terminal_emulator() -> Seq<char> {
    seq!['k', 'i', 't', 't', 'y']
}

/// The command line of an entry: the words of `Exec`, behind the terminal
/// emulator when the entry asks for a terminal.
pub open spec fn entry_command(line: Seq<char>, terminal: Option<String>) -> Seq<Seq<char>> {
    if wants_terminal(terminal) {
        seq![terminal_emulator()] + words(line)
    } else {
        words(line)
    }
}

impl DesktopEntry {
    /// The program this entry offers. There is none when the entry has no
    /// `Exec`, or an `Exec` without a word, or names a `TryExec` that was not
    /// found (`try_exec_found` is the outcome of looking for it). The name is
    /// `Name`, or `Exec` without it; the command line is never empty.
    pub fn to_program(&self, try_exec_found: bool) -> (r: Option<Program>)
        ensures
            r is Some <==> (self.command matches Some(line) && words(line@).len() > 0 && (
            self.try_exec is None || try_exec_found)),
            r matches Some(p) ==> p.cmd@.len() > 0,
            r matches Some(p) ==> {
                &&& self.command matches Some(line) && {
                    &&& p.name@ == match self.name {
                        Some(n) => n@,
                        None => line@,
                    }
                    &&& texts(p.cmd@) == entry_command(line@, self.terminal)
                }
            },
    {
        match &self.command {
            None => None,
            Some(line) => {
                if self.try_exec.is_some() && !try_exec_found {
                    return None;
                }
                let mut exec_words = split_words(line.as_str());
                if exec_words.len() == 0 {
                    return None;
                }
                let mut cmd: Vec<String> = Vec::new();
                let terminal = match &self.terminal {
                    Some(t) => {
                        let expected = String::from_str("true");
                        proof {
                            reveal_strlit("true");
                            assert(expected@ =~= seq!['t', 'r', 'u', 'e']);
                        }
                        t.eq(&expected)
                    },
                    None => false,
                };
                if terminal {
                    proof {
                        reveal_strlit("kitty");
                        assert("kitty"@ =~= terminal_emulator());
                    }
                    cmd.push(String::from_str("kitty"));
                    assert(texts(cmd@) =~= seq![terminal_emulator()]);
                } else {
                    assert(texts(cmd@) =~= Seq::<Seq<char>>::empty());
                }
                let ghost head = cmd@;
                cmd.append(&mut exec_words);
                assert(texts(cmd@) =~= texts(head) + words(line@));
                let name = match &self.name {
                    Some(n) => n.clone(),
                    None => line.clone(),
                };
                Some(Program { name, cmd })
            },
        }
    }
}

/// The suffix that marks a desktop entry file.
pub open spec fn desktop_suffix() -> Seq<char> {
    seq!['.', 'd', 'e', 's', 'k', 't', 'o', 'p']
}

/// A file name whose extension is `desktop`: it ends in `.desktop` with
/// something before that (a name that is only `.desktop` is hidden and has
/// no extension).
pub open spec fn is_desktop_name(name: Seq<char>) -> bool {
    name.len() > desktop_suffix().len() && name.subrange(
        name.len() - desktop_suffix().len(),
        name.len() as int,
    ) == desktop_suffix()
}

/// Whether a file called `name` holds a desktop entry.
pub fn is_desktop_file(name: &str) -> (r: bool)
    ensures
        r == is_desktop_name(name@),
{
    proof {
        reveal_strlit(".desktop");
        assert(".desktop"@ =~= desktop_suffix());
    }
    let suffix = ".desktop";
    let len = name.unicode_len();
    let n = suffix.unicode_len();
    if len <= n {
        return false;
    }
    let start = len - n;
    let mut i: usize = 0;
    while i < n
        invariant
            n == desktop_suffix().len(),
            suffix@ == desktop_suffix(),
            len == name@.len(),
            start + n == len,
            i <= n,
            forall|k: int| 0 <= k < i ==> name@[start + k] == desktop_suffix()[k],
        decreases n - i,
    {
        if name.get_char(start + i) != suffix.get_char(i) {
            assert(name@.subrange(start as int, len as int)[i as int] != desktop_suffix()[i as int]);
            return false;
        }
        i += 1;
    }
    assert(name@.subrange(start as int, len as int) =~= desktop_suffix());
    true
}

/// The directories of a search-path list `s[0..n]`, parted by `:`; an empty
/// list holds one empty directory.
pub open spec fn path_dirs_upto(s: Seq<char>, n: nat) -> Seq<Seq<char>>
    decreases n,
{
    if n == 0 || n > s.len() {
        seq![Seq::empty()]
    } else {
        let w = path_dirs_upto(s, (n - 1) as nat);
        if s[n - 1] == ':' {
            w.push(Seq::empty())
        } else {
            w.update(w.len() - 1, w.last().push(s[n - 1]))
        }
    }
}

/// The directories of the search-path list `s`, as `str::split(':')` yields them.
pub open spec fn path_dirs(s: Seq<char>) -> Seq<Seq<char>> {
    path_dirs_upto(s, s.len())
}

/// The file `cmd` in the directory `dir`.
pub open spec fn in_dir(dir: Seq<char>, cmd: Seq<char>) -> Seq<char> {
    dir + seq!['/'] + cmd
}

/// The places where the executable probe looks for `cmd`, in the order it
/// looks: `cmd` in each directory of the search-path list `path`.
pub fn candidate_paths(path: &str, cmd: &str) -> (r: Vec<String>)
    ensures
        r@.len() == path_dirs(path@).len(),
        forall|k: int| 0 <= k < r@.len() ==> #[trigger] r@[k]@ == in_dir(path_dirs(path@)[k], cmd@),
{
    proof {
        reveal_strlit("/");
        assert("/"@ =~= seq!['/']);
    }
    let len = path.unicode_len();
    let mut done: Vec<String> = Vec::new();
    let mut cur = String::new();
    let mut i: usize = 0;
    while i < len
        invariant
            len == path@.len(),
            i <= len,
            "/"@ == seq!['/'],
            path_dirs_upto(path@, i as nat).len() == done@.len() + 1,
            path_dirs_upto(path@, i as nat).last() == cur@,
            forall|k: int|
                0 <= k < done@.len() ==> #[trigger] done@[k]@ == in_dir(
                    path_dirs_upto(path@, i as nat)[k],
                    cmd@,
                ),
        decreases len - i,
    {
        let c = path.get_char(i);
        let ghost dirs = path_dirs_upto(path@, i as nat);
        let ghost next = path_dirs_upto(path@, (i + 1) as nat);
        assert(forall|k: int| 0 <= k < done@.len() ==> next[k] == dirs[k]);
        if c == ':' {
            let finished = cur.concat("/").concat(cmd);
            assert(finished@ == in_dir(dirs.last(), cmd@));
            cur = String::new();
            done.push(finished);
        } else {
            push_char(&mut cur, c);
        }
        i += 1;
    }
    let last = cur.concat("/").concat(cmd);
    assert(last@ == in_dir(path_dirs(path@).last(), cmd@));
    done.push(last);
    done
}

} // verus!
