//! Deciding whether a command resolves to a runnable file.
//!
//! Nothing here touches the file system. A [`Validation`] names the one
//! path it needs to know about next; the caller looks at the disk and passes
//! the answer back. What the validation ends with is stated against a
//! [`FileSystem`], the set of facts that the answers are taken from.

use crate::desktop::{executable_index, executable_position, executable_token};
use crate::paths::{
    file_name, file_name_of, is_absolute, join, join_path, path_is_absolute, same_path,
};
use crate::text::{
    ascii_lowercase, ascii_lowercase_of, chars_of, contains_text, rows, same_chars, split, split_chars,
    starts_with, str_of, string_of, text_contains, text_of, text_starts_with, texts,
};
use vstd::prelude::*;
use vstd::string::*;

verus! {

/// What a check needs beside the command itself.
pub struct CheckContext<'a> {
    /// The search path for bare commands, entries separated by `:`.
    pub path_env: &'a str,
    /// The working directory of the entry (its `Path` key), against which
    /// relative paths are resolved.
    pub path_key: Option<&'a str>,
    /// Whether to check the script argument of interpreter command lines.
    pub check_script_args: bool,
}

/// The facts about the disk that a check can ask for.
pub struct FileSystem {
    /// The paths of regular files with at least one executable bit.
    pub executables: Set<Seq<char>>,
    /// The paths whose metadata can be read.
    pub existing: Set<Seq<char>>,
}

/// A question to the file system.
#[derive(Debug, Clone, PartialEq, Eq)]
pub enum Probe {
    /// Does this path exist, as a regular file with an executable bit?
    ExecutableFile(String),
    /// Can the metadata of this path be read?
    Exists(String),
}

/// What a [`Probe`] holds.
pub enum ProbeView {
    ExecutableFile(Seq<char>),
    Exists(Seq<char>),
}

impl View for Probe {
    type V = ProbeView;

    open spec fn view(&self) -> ProbeView {
        match *self {
            Probe::ExecutableFile(path) => ProbeView::ExecutableFile(path@),
            Probe::Exists(path) => ProbeView::Exists(path@),
        }
    }
}

impl FileSystem {
    /// The true answer to `probe`.
    pub open spec fn answer(self, probe: ProbeView) -> bool {
        match probe {
            ProbeView::ExecutableFile(path) => self.executables.contains(path),
            ProbeView::Exists(path) => self.existing.contains(path),
        }
    }
}

/// What a validation ends with: the executable found, none, or a problem.
pub type Verdict = Result<Option<Seq<char>>, Seq<char>>;

/// The contents of an executable verdict.
pub open spec fn verdict_of(v: Result<Option<String>, String>) -> Verdict {
    match v {
        Ok(found) => Ok(text_of(found)),
        Err(problem) => Err(problem@),
    }
}

/// `command` joined onto each non-empty directory of `dirs`, in order.
pub open spec fn search_candidates(dirs: Seq<Seq<char>>, command: Seq<char>) -> Seq<Seq<char>>
    decreases dirs.len(),
{
    if dirs.len() == 0 {
        Seq::empty()
    } else {
        let before = search_candidates(dirs.drop_last(), command);
        if dirs.last().len() == 0 {
            before
        } else {
            before.push(join(dirs.last(), command))
        }
    }
}

/// The paths at which `token` may be found, in order of preference.
///
/// A token with a separator is a path: an absolute one stands for itself, a
/// relative one is taken from the working directory, and without a working
/// directory it has no candidate at all. A bare command is looked for in
/// each directory of the search path.
pub open spec fn candidates(
    token: Seq<char>,
    path_env: Seq<char>,
    path_key: Option<Seq<char>>,
) -> Seq<Seq<char>> {
    if token.contains('/') {
        if is_absolute(token) {
            seq![token]
        } else {
            match path_key {
                Some(dir) => seq![join(dir, token)],
                None => Seq::empty(),
            }
        }
    } else {
        search_candidates(split(path_env, ':'), token)
    }
}

/// The first of `paths` that is an executable file.
pub open spec fn first_executable(paths: Seq<Seq<char>>, fs: FileSystem) -> Option<Seq<char>>
    decreases paths.len(),
{
    if paths.len() == 0 {
        None
    } else if fs.executables.contains(paths[0]) {
        Some(paths[0])
    } else {
        first_executable(paths.drop_first(), fs)
    }
}

/// The executable file that `token` resolves to.
pub open spec fn resolved(
    token: Seq<char>,
    path_env: Seq<char>,
    path_key: Option<Seq<char>>,
    fs: FileSystem,
) -> Option<Seq<char>> {
    first_executable(candidates(token, path_env, path_key), fs)
}

/// Whether a file name, in any case, is that of a known interpreter.
pub open spec fn is_interpreter(name: Seq<char>) -> bool {
    let n = ascii_lowercase(name);
    n == "python"@ || n == "python3"@ || n == "node"@ || n == "bash"@ || n == "sh"@ || n
        == "ruby"@ || n == "perl"@
}

/// An argument that cannot be the script: a field code or an option.
pub open spec fn is_skipped_argument(token: Seq<char>) -> bool {
    starts_with(token, '%') || starts_with(token, '-')
}

/// The first of `arguments` that is neither a field code nor an option.
pub open spec fn script_argument(arguments: Seq<Seq<char>>) -> Option<Seq<char>>
    decreases arguments.len(),
{
    if arguments.len() == 0 {
        None
    } else if is_skipped_argument(arguments[0]) {
        script_argument(arguments.drop_first())
    } else {
        Some(arguments[0])
    }
}

/// The script that the command line `tokens` hands to the interpreter
/// `resolved_exe`, as a path to look for.
///
/// There is one only if the executable is an interpreter, the first plain
/// argument behind it contains a separator, and that argument is absolute
/// or a working directory is known.
pub open spec fn script_candidate(
    resolved_exe: Seq<char>,
    tokens: Seq<Seq<char>>,
    path_key: Option<Seq<char>>,
) -> Option<Seq<char>> {
    let at = executable_index(tokens);
    if !is_interpreter(file_name(resolved_exe)) || at >= tokens.len() {
        None
    } else {
        match script_argument(tokens.skip(at + 1)) {
            None => None,
            Some(argument) => if !argument.contains('/') {
                None
            } else if is_absolute(argument) {
                Some(argument)
            } else {
                match path_key {
                    Some(dir) => Some(join(dir, argument)),
                    None => None,
                }
            },
        }
    }
}

/// The problem reported when the script `candidate` of the interpreter
/// `resolved_exe` is missing.
pub open spec fn script_problem(resolved_exe: Seq<char>, candidate: Seq<char>) -> Seq<char> {
    "Interpreter "@ + ascii_lowercase(file_name(resolved_exe))
        + " exists, but script/path argument is missing: "@ + candidate
}

/// The verdict on a command line whose executable resolved to
/// `resolved_exe`.
pub open spec fn script_verdict(
    resolved_exe: Seq<char>,
    tokens: Seq<Seq<char>>,
    path_key: Option<Seq<char>>,
    check_script_args: bool,
    fs: FileSystem,
) -> Verdict {
    match script_candidate(resolved_exe, tokens, path_key) {
        Some(candidate) => if check_script_args && !fs.existing.contains(candidate) {
            Err(script_problem(resolved_exe, candidate))
        } else {
            Ok(Some(resolved_exe))
        },
        None => Ok(Some(resolved_exe)),
    }
}

/// The verdict on an `Exec` command line, given its shell words (`None`
/// when it could not be split).
pub open spec fn exec_verdict(
    words: Option<Seq<Seq<char>>>,
    path_env: Seq<char>,
    path_key: Option<Seq<char>>,
    check_script_args: bool,
    fs: FileSystem,
) -> Verdict {
    match words {
        None => Err("Failed to shell-split Exec"@),
        Some(tokens) => match executable_token(tokens) {
            None => Err("Could not extract executable from Exec"@),
            Some(executable) => if starts_with(executable, '%') {
                Ok(None)
            } else {
                match resolved(executable, path_env, path_key, fs) {
                    None => Ok(None),
                    Some(path) => script_verdict(path, tokens, path_key, check_script_args, fs),
                }
            },
        },
    }
}

/// Whether `name`, in any case, is that of a known interpreter.
pub fn is_interpreter_name(name: &str) -> (r: bool)
    ensures
        r == is_interpreter(name@),
{
    let n = ascii_lowercase_of(name);
    let v = chars_of(n.as_str());
    let s = v.as_slice();
    assert(s@.subrange(0, s@.len() as int) == s@);
    same_chars(s, 0, s.len(), chars_of("python").as_slice()) || same_chars(
        s,
        0,
        s.len(),
        chars_of("python3").as_slice(),
    ) || same_chars(s, 0, s.len(), chars_of("node").as_slice()) || same_chars(
        s,
        0,
        s.len(),
        chars_of("bash").as_slice(),
    ) || same_chars(s, 0, s.len(), chars_of("sh").as_slice()) || same_chars(
        s,
        0,
        s.len(),
        chars_of("ruby").as_slice(),
    ) || same_chars(s, 0, s.len(), chars_of("perl").as_slice())
}

/// The script check that the command line `tokens` calls for once its
/// executable has resolved to `resolved_exe`: the path to look for, and the
/// problem to report if nothing is there. `None` when there is nothing to
/// check: see [`script_candidate`].
pub fn heuristic_script_missing(
    resolved_exe: &str,
    tokens: &[String],
    path_key: Option<&str>,
) -> (r: Option<(String, String)>)
    ensures
        match r {
            Some((candidate, problem)) => script_candidate(
                resolved_exe@,
                texts(tokens@),
                str_of(path_key),
            ) == Some(candidate@) && problem@ == script_problem(resolved_exe@, candidate@),
            None => script_candidate(resolved_exe@, texts(tokens@), str_of(path_key)) is None,
        },
{
    let ghost ts = texts(tokens@);
    let name = file_name_of(resolved_exe);
    let at = executable_position(tokens);
    if !is_interpreter_name(name.as_str()) || at >= tokens.len() {
        return None;
    }
    let mut i: usize = at + 1;
    while i < tokens.len() && (text_starts_with(tokens[i].as_str(), '%') || text_starts_with(
        tokens[i].as_str(),
        '-',
    ))
        invariant
            at < i <= tokens.len(),
            ts == texts(tokens@),
            script_argument(ts.skip(at + 1)) == script_argument(ts.skip(i as int)),
        decreases tokens.len() - i,
    {
        assert(ts.skip(i as int).drop_first() == ts.skip(i + 1));
        i += 1;
    }
    if i >= tokens.len() {
        return None;
    }
    let argument = tokens[i].as_str();
    assert(ts.skip(i as int)[0] == argument@);
    if !text_contains(argument, '/') {
        return None;
    }
    let candidate = if path_is_absolute(argument) {
        String::from_str(argument)
    } else {
        match path_key {
            Some(dir) => join_path(dir, argument),
            None => {
                return None;
            },
        }
    };
    let mut problem = String::from_str("Interpreter ");
    problem.append(ascii_lowercase_of(name.as_str()).as_str());
    problem.append(" exists, but script/path argument is missing: ");
    problem.append(candidate.as_str());
    Some((candidate, problem))
}

/// The paths at which `token` may be found: see [`candidates`].
pub fn resolve_candidates(token: &str, path_env: &str, path_key: Option<&str>) -> (r: Vec<String>)
    ensures
        texts(r@) == candidates(token@, path_env@, str_of(path_key)),
{
    let mut out: Vec<String> = Vec::new();
    if text_contains(token, '/') {
        if path_is_absolute(token) {
            out.push(String::from_str(token));
            assert(texts(out@) == seq![token@]);
        } else {
            match path_key {
                Some(dir) => {
                    out.push(join_path(dir, token));
                    assert(texts(out@) == seq![join(dir@, token@)]);
                },
                None => {
                    assert(texts(out@) == Seq::<Seq<char>>::empty());
                },
            }
        }
        return out;
    }
    let env = chars_of(path_env);
    let dirs = split_chars(env.as_slice(), ':');
    let ghost all = split(path_env@, ':');
    let mut i: usize = 0;
    assert(all.take(0) == Seq::<Seq<char>>::empty());
    assert(texts(out@) == Seq::<Seq<char>>::empty());
    while i < dirs.len()
        invariant
            i <= dirs.len(),
            rows(dirs@) == all,
            texts(out@) == search_candidates(all.take(i as int), token@),
        decreases dirs.len() - i,
    {
        assert(all.take(i + 1).drop_last() == all.take(i as int));
        assert(all.take(i + 1).last() == dirs@[i as int]@);
        if dirs[i].len() > 0 {
            let dir = string_of(dirs[i].as_slice(), 0, dirs[i].len());
            assert(dirs@[i as int]@.subrange(0, dirs@[i as int]@.len() as int) == dirs@[i as int]@);
            let ghost before = texts(out@);
            out.push(join_path(dir.as_str(), token));
            assert(texts(out@) == before.push(join(dir@, token@)));
        }
        i += 1;
    }
    assert(all.take(i as int) == all);
    out
}

/// What `line` splits into under the word-splitting rules of a POSIX shell,
/// or `None` where its quoting is unbalanced.
pub uninterp spec fn shell_words(line: Seq<char>) -> Option<Seq<Seq<char>>>;

/// The words `line` splits into, when they are given as strings.
pub open spec fn words_of(words: Option<Vec<String>>) -> Option<Seq<Seq<char>>> {
    match words {
        Some(tokens) => Some(texts(tokens@)),
        None => None,
    }
}

/// Calls `shlex::split`. Its own parser decides the words; the contract
/// only gives the result a name, [`shell_words`], as a function of the line.
#[verifier::external_body]
fn shell_split(line: &str) -> (r: Option<Vec<String>>)
    ensures
        words_of(r) == shell_words(line@),
{
    shlex::split(line)
}

/// How far a validation has come.
enum Stage {
    /// Looking for the executable: `candidates[next]` is being asked about.
    Resolving {
        candidates: Vec<String>,
        next: usize,
        tokens: Vec<String>,
        path_key: Option<String>,
        check_script_args: bool,
    },
    /// The executable is found; its script argument is being asked about.
    CheckingScript { resolved_exe: String, candidate: String, problem: String },
    /// Nothing is left to ask.
    Finished { verdict: Result<Option<String>, String> },
}

/// A validation in progress.
///
/// It asks one question at a time ([`Validation::pending`]), takes the
/// answer ([`Validation::answer`]) and, when no question is left, holds its
/// verdict ([`Validation::outcome`]). Whatever the answers, it is determined
/// from the start what it ends with in a given file system:
/// [`Validation::verdict`].
pub struct Validation {
    stage: Stage,
}

impl Validation {
    /// While the executable is looked for, a candidate is being asked about.
    #[verifier::type_invariant]
    spec fn well_formed(self) -> bool {
        match self.stage {
            Stage::Resolving { candidates, next, .. } => next < candidates.len(),
            _ => true,
        }
    }

    /// The question that has to be answered next; `None` when the
    /// validation has finished.
    pub closed spec fn question(self) -> Option<ProbeView> {
        match self.stage {
            Stage::Resolving { candidates, next, .. } => Some(
                ProbeView::ExecutableFile(candidates[next as int]@),
            ),
            Stage::CheckingScript { candidate, .. } => Some(ProbeView::Exists(candidate@)),
            Stage::Finished { .. } => None,
        }
    }

    /// What this validation ends with when its questions are answered from
    /// `fs`.
    pub closed spec fn verdict(self, fs: FileSystem) -> Verdict {
        match self.stage {
            Stage::Resolving { candidates, next, tokens, path_key, check_script_args } => {
                match first_executable(texts(candidates@).skip(next as int), fs) {
                    None => Ok(None),
                    Some(path) => script_verdict(
                        path,
                        texts(tokens@),
                        text_of(path_key),
                        check_script_args,
                        fs,
                    ),
                }
            },
            Stage::CheckingScript { resolved_exe, candidate, problem } => {
                if fs.existing.contains(candidate@) {
                    Ok(Some(resolved_exe@))
                } else {
                    Err(problem@)
                }
            },
            Stage::Finished { verdict } => verdict_of(verdict),
        }
    }

    /// A bound on the number of questions that are still to come.
    pub closed spec fn questions_left(self) -> nat {
        match self.stage {
            Stage::Resolving { candidates, next, .. } => (candidates.len() - next + 1) as nat,
            Stage::CheckingScript { .. } => 1,
            Stage::Finished { .. } => 0,
        }
    }

    /// A validation that has finished with `verdict`.
    fn finished(verdict: Result<Option<String>, String>) -> (r: Validation)
        ensures
            r.question() is None,
            forall|fs: FileSystem| #[trigger] r.verdict(fs) == verdict_of(verdict),
    {
        Validation { stage: Stage::Finished { verdict } }
    }

    /// A validation that looks for the first executable file among
    /// `candidates` and then checks the script argument of `tokens`.
    fn resolving(
        candidates: Vec<String>,
        tokens: Vec<String>,
        path_key: Option<String>,
        check_script_args: bool,
    ) -> (r: Validation)
        ensures
            forall|fs: FileSystem| #[trigger]
                r.verdict(fs) == match first_executable(texts(candidates@), fs) {
                    None => Ok(None),
                    Some(path) => script_verdict(
                        path,
                        texts(tokens@),
                        text_of(path_key),
                        check_script_args,
                        fs,
                    ),
                },
    {
        if candidates.len() == 0 {
            assert(texts(candidates@) == Seq::<Seq<char>>::empty());
            Validation::finished(Ok(None))
        } else {
            assert(texts(candidates@).skip(0) == texts(candidates@));
            Validation {
                stage: Stage::Resolving { candidates, next: 0, tokens, path_key, check_script_args },
            }
        }
    }

    /// The question to answer next, or `None` when the validation has
    /// finished.
    pub fn pending(&self) -> (r: Option<Probe>)
        ensures
            match r {
                Some(probe) => self.question() == Some(probe@),
                None => self.question() is None,
            },
            r is Some <==> self.questions_left() > 0,
    {
        proof {
            use_type_invariant(self);
        }
        match &self.stage {
            Stage::Resolving { candidates, next, .. } => Some(
                Probe::ExecutableFile(candidates[*next].clone()),
            ),
            Stage::CheckingScript { candidate, .. } => Some(Probe::Exists(candidate.clone())),
            Stage::Finished { .. } => None,
        }
    }

    /// Takes the answer to the pending question. A finished validation
    /// stays as it is.
    ///
    /// In every file system of which `yes` is the true answer, the
    /// validation still ends with the same verdict, and it has come closer
    /// to it.
    pub fn answer(self, yes: bool) -> (r: Validation)
        ensures
            self.question() is None ==> r == self,
            self.question() is Some ==> r.questions_left() < self.questions_left(),
            forall|fs: FileSystem|
                self.question() is Some && fs.answer(self.question()->0) == yes
                    ==> #[trigger] r.verdict(fs) == self.verdict(fs),
    {
        proof {
            use_type_invariant(&self);
        }
        let ghost before = self;
        match self.stage {
            Stage::Resolving { candidates, next, tokens, path_key, check_script_args } => {
                let ghost rest = texts(candidates@).skip(next as int);
                assert(rest[0] == candidates@[next as int]@);
                assert(rest.drop_first() == texts(candidates@).skip(next + 1));
                if yes {
                    let resolved_exe = candidates[next].clone();
                    let check = if check_script_args {
                        let dir = match &path_key {
                            Some(d) => Some(d.as_str()),
                            None => None,
                        };
                        heuristic_script_missing(resolved_exe.as_str(), tokens.as_slice(), dir)
                    } else {
                        None
                    };
                    let r = match check {
                        Some((candidate, problem)) => Validation {
                            stage: Stage::CheckingScript { resolved_exe, candidate, problem },
                        },
                        None => Validation::finished(Ok(Some(resolved_exe))),
                    };
                    assert forall|fs: FileSystem| fs.answer(before.question()->0) implies #[trigger]
                        r.verdict(fs) == before.verdict(fs) by {
                        assert(first_executable(rest, fs) == Some(rest[0]));
                    }
                    r
                } else if next + 1 < candidates.len() {
                    let r = Validation {
                        stage: Stage::Resolving {
                            candidates,
                            next: next + 1,
                            tokens,
                            path_key,
                            check_script_args,
                        },
                    };
                    assert forall|fs: FileSystem| !fs.answer(before.question()->0) implies #[trigger]
                        r.verdict(fs) == before.verdict(fs) by {
                        assert(first_executable(rest, fs) == first_executable(
                            rest.drop_first(),
                            fs,
                        ));
                    }
                    r
                } else {
                    assert(rest.drop_first() == Seq::<Seq<char>>::empty());
                    let r = Validation::finished(Ok(None));
                    assert forall|fs: FileSystem| !fs.answer(before.question()->0) implies #[trigger]
                        r.verdict(fs) == before.verdict(fs) by {
                        assert(first_executable(rest, fs) == first_executable(
                            rest.drop_first(),
                            fs,
                        ));
                    }
                    r
                }
            },
            Stage::CheckingScript { resolved_exe, candidate, problem } => {
                if yes {
                    Validation::finished(Ok(Some(resolved_exe)))
                } else {
                    Validation::finished(Err(problem))
                }
            },
            Stage::Finished { verdict } => Validation { stage: Stage::Finished { verdict } },
        }
    }

    /// The verdict of a finished validation; `None` while a question is
    /// pending.
    pub fn outcome(&self) -> (r: Option<Result<Option<String>, String>>)
        ensures
            match r {
                Some(verdict) => self.question() is None && forall|fs: FileSystem| #[trigger]
                    self.verdict(fs) == verdict_of(verdict),
                None => self.question() is Some,
            },
    {
        match &self.stage {
            Stage::Finished { verdict } => Some(
                match verdict {
                    Ok(Some(path)) => Ok(Some(path.clone())),
                    Ok(None) => Ok(None),
                    Err(problem) => Err(problem.clone()),
                },
            ),
            _ => None,
        }
    }
}

/// Starts resolving `token` to an executable file: as a path if it contains
/// a separator, else as a bare command on the search path `path_env`.
///
/// The validation ends with `Ok` of the first candidate that is an
/// executable file, or `Ok(None)`; it never ends with a problem.
pub fn resolve_executable(token: &str, path_env: &str, path_key: Option<&str>) -> (r: Validation)
    ensures
        forall|fs: FileSystem| #[trigger]
            r.verdict(fs) == Ok::<Option<Seq<char>>, Seq<char>>(
                resolved(token@, path_env@, str_of(path_key), fs),
            ),
{
    let candidates = resolve_candidates(token, path_env, path_key);
    let r = Validation::resolving(candidates, Vec::new(), None, false);
    assert forall|fs: FileSystem| #[trigger]
        r.verdict(fs) == Ok::<Option<Seq<char>>, Seq<char>>(
            resolved(token@, path_env@, str_of(path_key), fs),
        ) by {
        let found = first_executable(texts(candidates@), fs);
        if found is Some {
            assert(script_verdict(found->0, texts(Seq::<String>::empty()), None, false, fs) == Ok::<
                Option<Seq<char>>,
                Seq<char>,
            >(found));
        }
    }
    r
}

/// Starts validating a `TryExec` value, which is a plain path or command:
/// this is [`resolve_executable`] on the value as it stands.
pub fn validate_tryexec(try_exec: &str, ctx: &CheckContext<'_>) -> (r: Validation)
    ensures
        forall|fs: FileSystem| #[trigger]
            r.verdict(fs) == Ok::<Option<Seq<char>>, Seq<char>>(
                resolved(try_exec@, ctx.path_env@, str_of(ctx.path_key), fs),
            ),
{
    resolve_executable(try_exec, ctx.path_env, ctx.path_key)
}

/// Starts validating a command line that has been split into `words`
/// (`None` when it could not be split): see [`exec_verdict`].
pub fn validate_exec_words(words: Option<Vec<String>>, ctx: &CheckContext<'_>) -> (r: Validation)
    ensures
        forall|fs: FileSystem| #[trigger]
            r.verdict(fs) == exec_verdict(
                words_of(words),
                ctx.path_env@,
                str_of(ctx.path_key),
                ctx.check_script_args,
                fs,
            ),
{
    let tokens = match words {
        Some(tokens) => tokens,
        None => {
            return Validation::finished(Err(String::from_str("Failed to shell-split Exec")));
        },
    };
    let at = executable_position(tokens.as_slice());
    if at >= tokens.len() {
        return Validation::finished(
            Err(String::from_str("Could not extract executable from Exec")),
        );
    }
    let executable = tokens[at].as_str();
    if text_starts_with(executable, '%') {
        return Validation::finished(Ok(None));
    }
    let candidates = resolve_candidates(executable, ctx.path_env, ctx.path_key);
    let path_key = match ctx.path_key {
        Some(dir) => Some(String::from_str(dir)),
        None => None,
    };
    Validation::resolving(candidates, tokens, path_key, ctx.check_script_args)
}

/// Starts validating an `Exec` command line: it is split into shell words,
/// its executable is extracted and resolved, and, if asked for, the script
/// argument of an interpreter is checked.
///
/// The validation ends with `Ok(Some(path))` if the executable resolves,
/// with `Ok(None)` if it does not or is a field code, and with a problem if
/// the line cannot be split, names no executable, or fails the script check.
pub fn validate_exec(exec_line: &str, ctx: &CheckContext<'_>) -> (r: Validation)
    ensures
        forall|fs: FileSystem| #[trigger]
            r.verdict(fs) == exec_verdict(
                shell_words(exec_line@),
                ctx.path_env@,
                str_of(ctx.path_key),
                ctx.check_script_args,
                fs,
            ),
{
    validate_exec_words(shell_split(exec_line), ctx)
}

/// Resolution returns the first candidate that is an executable file: what
/// it returns is a candidate and executable, and no candidate before it is;
/// it returns nothing only where no candidate is executable.
pub proof fn first_executable_is_first(paths: Seq<Seq<char>>, fs: FileSystem)
    ensures
        match first_executable(paths, fs) {
            Some(path) => exists|k: int|
                0 <= k < paths.len() && #[trigger] paths[k] == path && fs.executables.contains(path)
                    && forall|j: int| 0 <= j < k ==> !fs.executables.contains(#[trigger] paths[j]),
            None => forall|j: int| 0 <= j < paths.len() ==> !fs.executables.contains(#[trigger] paths[j]),
        },
    decreases paths.len(),
{
    if paths.len() > 0 {
        let rest = paths.drop_first();
        if fs.executables.contains(paths[0]) {
            assert(paths[0] == paths[0]);
        } else {
            first_executable_is_first(rest, fs);
            match first_executable(rest, fs) {
                Some(path) => {
                    let k = choose|k: int|
                        0 <= k < rest.len() && #[trigger] rest[k] == path
                            && fs.executables.contains(path) && forall|j: int|
                            0 <= j < k ==> !fs.executables.contains(#[trigger] rest[j]);
                    assert(paths[k + 1] == path);
                    assert forall|j: int| 0 <= j < k + 1 implies !fs.executables.contains(
                        #[trigger] paths[j],
                    ) by {
                        if j > 0 {
                            assert(paths[j] == rest[j - 1]);
                        }
                    }
                },
                None => {
                    assert forall|j: int| 0 <= j < paths.len() implies !fs.executables.contains(
                        #[trigger] paths[j],
                    ) by {
                        if j > 0 {
                            assert(paths[j] == rest[j - 1]);
                        }
                    }
                },
            }
        }
    }
}

/// An absolute path resolves to itself if and only if it is an executable
/// file; the search path and the working directory play no part.
pub proof fn absolute_path_resolves_to_itself(
    token: Seq<char>,
    path_env: Seq<char>,
    path_key: Option<Seq<char>>,
    fs: FileSystem,
)
    requires
        is_absolute(token),
    ensures
        resolved(token, path_env, path_key, fs) == if fs.executables.contains(token) {
            Some(token)
        } else {
            None
        },
{
    assert(token[0] == '/');
    assert(token.contains('/'));
    let one = seq![token];
    assert(first_executable(one.drop_first(), fs) is None);
}

/// A relative path is resolved against the working directory, and without
/// one it is not resolved at all.
pub proof fn relative_path_needs_working_directory(
    token: Seq<char>,
    path_env: Seq<char>,
    path_key: Option<Seq<char>>,
    fs: FileSystem,
)
    requires
        token.contains('/'),
        !is_absolute(token),
    ensures
        resolved(token, path_env, path_key, fs) == match path_key {
            Some(dir) => if fs.executables.contains(join(dir, token)) {
                Some(join(dir, token))
            } else {
                None
            },
            None => None,
        },
{
    if path_key is Some {
        let one = seq![join(path_key->0, token)];
        assert(first_executable(one.drop_first(), fs) is None);
    }
}

/// A command line whose executable is a field code is not broken: it names
/// no executable, and that is all.
pub proof fn field_code_is_not_broken(
    tokens: Seq<Seq<char>>,
    path_env: Seq<char>,
    path_key: Option<Seq<char>>,
    check_script_args: bool,
    fs: FileSystem,
)
    requires
        executable_token(tokens) is Some,
        starts_with(executable_token(tokens)->0, '%'),
    ensures
        exec_verdict(Some(tokens), path_env, path_key, check_script_args, fs) == Ok::<
            Option<Seq<char>>,
            Seq<char>,
        >(None),
{
}

/// The script check can only turn a resolved executable into a problem,
/// and only where it is switched on: without it, a command line whose
/// executable resolves is in order.
pub proof fn script_check_is_optional(
    resolved_exe: Seq<char>,
    tokens: Seq<Seq<char>>,
    path_key: Option<Seq<char>>,
    fs: FileSystem,
)
    ensures
        script_verdict(resolved_exe, tokens, path_key, false, fs) == Ok::<
            Option<Seq<char>>,
            Seq<char>,
        >(Some(resolved_exe)),
        script_verdict(resolved_exe, tokens, path_key, true, fs) is Err <==> script_candidate(
            resolved_exe,
            tokens,
            path_key,
        ) is Some && !fs.existing.contains(script_candidate(resolved_exe, tokens, path_key)->0),
{
}

/// A file system given by two lists, for running a check against facts
/// that are already known.
#[derive(Debug, Clone, PartialEq, Eq)]
pub struct Snapshot {
    /// The paths of the regular files with an executable bit.
    pub executables: Vec<String>,
    /// The paths whose metadata can be read.
    pub existing: Vec<String>,
}

impl View for Snapshot {
    type V = FileSystem;

    open spec fn view(&self) -> FileSystem {
        FileSystem {
            executables: Set::new(|path: Seq<char>| texts(self.executables@).contains(path)),
            existing: Set::new(|path: Seq<char>| texts(self.existing@).contains(path)),
        }
    }
}

impl Snapshot {
    /// The answer of this file system to `probe`.
    pub fn answer(&self, probe: &Probe) -> (r: bool)
        ensures
            r == self@.answer(probe@),
    {
        match probe {
            Probe::ExecutableFile(path) => contains_text(
                self.executables.as_slice(),
                path.as_str(),
            ),
            Probe::Exists(path) => contains_text(self.existing.as_slice(), path.as_str()),
        }
    }
}

impl Validation {
    /// Runs the validation to its end, with every question answered from
    /// `disk`. Every validation comes to an end, and with the verdict that
    /// it had from the start.
    pub fn conclude(self, disk: &Snapshot) -> (r: Result<Option<String>, String>)
        ensures
            verdict_of(r) == self.verdict(disk@),
    {
        let mut validation = self;
        loop
            invariant
                validation.verdict(disk@) == self.verdict(disk@),
            decreases validation.questions_left(),
        {
            match validation.outcome() {
                Some(verdict) => {
                    return verdict;
                },
                None => {},
            }
            match validation.pending() {
                Some(probe) => {
                    let yes = disk.answer(&probe);
                    validation = validation.answer(yes);
                },
                None => {},
            }
        }
    }
}

/// Whether a permission mode has an executable bit for the owner, the
/// group or others.
pub open spec fn has_executable_bit(mode: u32) -> bool {
    mode & 0o100 != 0 || mode & 0o010 != 0 || mode & 0o001 != 0
}

/// Whether a path whose metadata could be read is an executable file: a
/// regular file, not a directory or a special file, with at least one
/// executable bit in its permission mode.
pub fn is_executable_file(is_file: bool, mode: u32) -> (r: bool)
    ensures
        r == (is_file && has_executable_bit(mode)),
{
    assert((mode & 0o111 != 0) == (mode & 0o100 != 0 || mode & 0o010 != 0 || mode & 0o001 != 0))
        by (bit_vector);
    is_file && (mode & 0o111) != 0
}

impl FileSystem {
    /// Whether the answers go by the path and not by its spelling: two
    /// texts that spell the same path are both executable files or neither
    /// is, and both exist or neither does.
    pub open spec fn goes_by_path(self) -> bool {
        forall|a: Seq<char>, b: Seq<char>| #[trigger]
            same_path(a, b) ==> (self.executables.contains(a) <==> self.executables.contains(b))
                && (self.existing.contains(a) <==> self.existing.contains(b))
    }
}

/// A relative path written with `./` in front is found in the working
/// directory: where the file of that name in the directory is executable,
/// the path resolves, and to a text that spells the path of that file.
/// Without a working directory it does not resolve.
pub proof fn dot_slash_resolves_in_the_working_directory(
    rel: Seq<char>,
    path_env: Seq<char>,
    dir: Seq<char>,
    fs: FileSystem,
)
    requires
        dir.len() > 0,
        !is_absolute(rel),
        fs.goes_by_path(),
        fs.executables.contains(join(dir, rel)),
    ensures
        resolved(seq!['.', '/'] + rel, path_env, Some(dir), fs) == Some(
            join(dir, seq!['.', '/'] + rel),
        ),
        same_path(join(dir, seq!['.', '/'] + rel), join(dir, rel)),
        resolved(seq!['.', '/'] + rel, path_env, None, fs) is None,
{
    let token = seq!['.', '/'] + rel;
    assert(token[0] == '.' && token[1] == '/');
    assert(token.contains('/'));
    crate::paths::dot_slash_joins_to_the_same_path(dir, rel);
    assert(same_path(join(dir, token), join(dir, rel)));
    relative_path_needs_working_directory(token, path_env, Some(dir), fs);
    relative_path_needs_working_directory(token, path_env, None, fs);
}

} // verus!
